//! Character-level helpers for the structured header formats.
use vstd::prelude::*;

verus! {

/// Index of the first `c` in `s`, or `s.len()` when there is none.
pub open spec fn index_of(s: Seq<char>, c: char) -> int
    decreases s.len(),
{
    if s.len() == 0 {
        0
    } else if s[0] == c {
        0
    } else {
        1 + index_of(s.skip(1), c)
    }
}

/// `s` holds no `c`.
pub open spec fn lacks(s: Seq<char>, c: char) -> bool {
    forall|i: int| 0 <= i < s.len() ==> #[trigger] s[i] != c
}

/// The pieces of `s` between occurrences of `sep`.
pub open spec fn split_on(s: Seq<char>, sep: char) -> Seq<Seq<char>>
    decreases s.len(),
{
    let i = index_of(s, sep);
    if i < 0 || i >= s.len() {
        seq![s]
    } else {
        seq![s.subrange(0, i)] + split_on(s.skip(i + 1), sep)
    }
}

/// The value of a non-empty string of decimal digits.
pub open spec fn decimal_value(s: Seq<char>) -> int
    decreases s.len(),
{
    if s.len() == 0 {
        0
    } else {
        decimal_value(s.drop_last()) * 10 + (s.last() as u32 - '0' as u32)
    }
}

/// Every character is a decimal digit.
pub open spec fn all_digits(s: Seq<char>) -> bool {
    forall|i: int| 0 <= i < s.len() ==> '0' <= #[trigger] s[i] <= '9'
}

pub proof fn lemma_index_of(s: Seq<char>, c: char)
    ensures
        0 <= index_of(s, c) <= s.len(),
        index_of(s, c) < s.len() ==> s[index_of(s, c)] == c,
        lacks(s.subrange(0, index_of(s, c)), c),
    decreases s.len(),
{
    if s.len() > 0 && s[0] != c {
        lemma_index_of(s.skip(1), c);
        let i = index_of(s, c);
        assert forall|j: int| 0 <= j < i implies #[trigger] s.subrange(0, i)[j] != c by {
            if j > 0 {
                assert(s.subrange(0, i)[j] == s.skip(1).subrange(0, i - 1)[j - 1]);
            }
        }
    } else {
        assert(s.subrange(0, index_of(s, c)) =~= Seq::<char>::empty());
    }
}

/// A `c` at `k`, with none before it, is the first.
pub proof fn lemma_index_of_at(s: Seq<char>, c: char, k: int)
    requires
        0 <= k <= s.len(),
        k < s.len() ==> s[k] == c,
        lacks(s.subrange(0, k), c),
    ensures
        index_of(s, c) == k,
    decreases s.len(),
{
    if s.len() > 0 && k > 0 {
        assert(s.subrange(0, k)[0] == s[0]);
        assert forall|j: int| 0 <= j < k - 1 implies #[trigger] s.skip(1).subrange(0, k - 1)[j] != c by {
            assert(s.skip(1).subrange(0, k - 1)[j] == s.subrange(0, k)[j + 1]);
        }
        lemma_index_of_at(s.skip(1), c, k - 1);
    }
}

/// The first `c` at or after `from`, or the length when there is none.
pub fn find_char(s: &str, c: char, from: usize) -> (r: usize)
    requires
        from <= s@.len(),
    ensures
        r == from + index_of(s@.skip(from as int), c),
{
    let n = s.unicode_len();
    let mut i: usize = from;
    while i < n
        invariant
            from <= i <= n == s@.len(),
            lacks(s@.subrange(from as int, i as int), c),
        decreases n - i,
    {
        if s.get_char(i) == c {
            proof {
                assert(s@.skip(from as int).subrange(0, i - from) =~= s@.subrange(from as int, i as int));
                lemma_index_of_at(s@.skip(from as int), c, i - from);
            }
            return i;
        }
        i = i + 1;
        assert forall|j: int| 0 <= j < i - from implies #[trigger] s@.subrange(from as int, i as int)[j] != c by {
            if j < i - 1 - from {
                assert(s@.subrange(from as int, i as int)[j] == s@.subrange(from as int, i - 1)[j]);
            }
        }
    }
    proof {
        assert(s@.skip(from as int).subrange(0, n - from) =~= s@.subrange(from as int, n as int));
        lemma_index_of_at(s@.skip(from as int), c, n - from);
    }
    n
}

/// Whether `s` holds `lit` at `pos`.
pub fn has_at(s: &str, pos: usize, lit: &str) -> (r: bool)
    requires
        pos <= s@.len(),
    ensures
        r == (pos + lit@.len() <= s@.len() && s@.subrange(pos as int, pos + lit@.len()) == lit@),
{
    let n = s.unicode_len();
    let m = lit.unicode_len();
    if m > n - pos {
        return false;
    }
    let mut i: usize = 0;
    while i < m
        invariant
            i <= m == lit@.len(),
            n == s@.len(),
            pos + m <= n,
            s@.subrange(pos as int, pos + i) == lit@.subrange(0, i as int),
        decreases m - i,
    {
        if s.get_char(pos + i) != lit.get_char(i) {
            assert(s@.subrange(pos as int, pos + m)[i as int] != lit@[i as int]);
            return false;
        }
        i = i + 1;
        assert(s@.subrange(pos as int, pos + i) =~= lit@.subrange(0, i as int));
    }
    assert(lit@.subrange(0, m as int) =~= lit@);
    true
}

/// Splits `s` at each `sep`.
pub fn split_exec(s: &str, sep: char) -> (r: Vec<String>)
    ensures
        r@.len() == split_on(s@, sep).len(),
        forall|i: int| 0 <= i < r@.len() ==> #[trigger] r@[i]@ == split_on(s@, sep)[i],
{
    let n = s.unicode_len();
    let mut acc: Vec<String> = Vec::new();
    let mut pos: usize = 0;
    let ghost accv: Seq<Seq<char>> = Seq::empty();
    proof {
        assert(s@.skip(0) =~= s@);
        assert(accv + split_on(s@, sep) =~= split_on(s@, sep));
    }
    loop
        invariant
            pos <= n == s@.len(),
            acc@.len() == accv.len(),
            forall|i: int| 0 <= i < acc@.len() ==> #[trigger] acc@[i]@ == accv[i],
            split_on(s@, sep) == accv + split_on(s@.skip(pos as int), sep),
        decreases n - pos,
    {
        let ghost rest = s@.skip(pos as int);
        let k = find_char(s, sep, pos);
        proof {
            lemma_index_of(rest, sep);
        }
        let piece = s.substring_char(pos, k);
        assert(piece@ =~= rest.subrange(0, k - pos));
        acc.push(piece.to_owned());
        proof {
            accv = accv.push(piece@);
        }
        if k >= n {
            proof {
                assert(split_on(rest, sep) == seq![rest]);
                assert(rest.subrange(0, k - pos) =~= rest);
                assert(accv =~= (accv.drop_last() + seq![rest]));
            }
            return acc;
        }
        proof {
            assert(rest.skip(k - pos + 1) =~= s@.skip(k + 1));
            assert(accv.drop_last() + (seq![piece@] + split_on(s@.skip(k + 1), sep)) =~= accv + split_on(
                s@.skip(k + 1),
                sep,
            ));
        }
        pos = k + 1;
    }
}

/// Reads a non-empty string of decimal digits whose value fits in a `u64`.
pub fn parse_decimal(s: &str) -> (r: Option<u64>)
    ensures
        r is Some <==> (s@.len() > 0 && all_digits(s@) && decimal_value(s@) <= u64::MAX),
        r matches Some(v) ==> v == decimal_value(s@),
{
    let n = s.unicode_len();
    if n == 0 {
        return None;
    }
    let mut v: u64 = 0;
    let mut i: usize = 0;
    while i < n
        invariant
            i <= n == s@.len(),
            all_digits(s@.subrange(0, i as int)),
            v == decimal_value(s@.subrange(0, i as int)),
        decreases n - i,
    {
        let c = s.get_char(i);
        assert(s@.subrange(0, i + 1).drop_last() =~= s@.subrange(0, i as int));
        if c < '0' || c > '9' {
            assert(!all_digits(s@)) by {
                assert(s@[i as int] == c);
            }
            return None;
        }
        let d = (c as u32 - '0' as u32) as u64;
        if v > (u64::MAX - d) / 10 {
            proof {
                let p = s@.subrange(0, i + 1);
                assert(p.last() == c);
                assert(decimal_value(p) == v * 10 + d);
                assert(v * 10 + d > u64::MAX) by (nonlinear_arith)
                    requires
                        v > (u64::MAX - d) / 10,
                        d <= 9,
                ;
                if all_digits(s@) {
                    lemma_decimal_prefix(s@, i as int + 1);
                }
            }
            return None;
        }
        v = v * 10 + d;
        i = i + 1;
        assert(all_digits(s@.subrange(0, i as int))) by {
            assert forall|j: int| 0 <= j < i implies '0' <= #[trigger] s@.subrange(0, i as int)[j] <= '9' by {
                if j < i - 1 {
                    assert(s@.subrange(0, i as int)[j] == s@.subrange(0, i - 1)[j]);
                }
            }
        }
    }
    assert(s@.subrange(0, n as int) =~= s@);
    Some(v)
}

proof fn lemma_decimal_nonneg(s: Seq<char>)
    requires
        all_digits(s),
    ensures
        decimal_value(s) >= 0,
    decreases s.len(),
{
    if s.len() > 0 {
        assert forall|i: int| 0 <= i < s.drop_last().len() implies '0' <= #[trigger] s.drop_last()[i] <= '9' by {
            assert(s.drop_last()[i] == s[i]);
        }
        lemma_decimal_nonneg(s.drop_last());
        assert(s.last() == s[s.len() - 1]);
    }
}

/// The value of a string of digits is at least that of each of its prefixes.
pub proof fn lemma_decimal_prefix(s: Seq<char>, k: int)
    requires
        0 <= k <= s.len(),
        all_digits(s),
    ensures
        decimal_value(s.subrange(0, k)) <= decimal_value(s),
    decreases s.len() - k,
{
    if k < s.len() {
        assert forall|i: int| 0 <= i < s.drop_last().len() implies '0' <= #[trigger] s.drop_last()[i] <= '9' by {
            assert(s.drop_last()[i] == s[i]);
        }
        lemma_decimal_prefix(s.drop_last(), k);
        lemma_decimal_nonneg(s.drop_last());
        assert(s.drop_last().subrange(0, k) =~= s.subrange(0, k));
        assert(s.last() == s[s.len() - 1]);
    } else {
        assert(s.subrange(0, k) =~= s);
    }
}

/// `a` comes no later than `b` in lexicographic order of characters.
pub open spec fn lex_le(a: Seq<char>, b: Seq<char>) -> bool
    decreases a.len(),
{
    if a.len() == 0 {
        true
    } else if b.len() == 0 {
        false
    } else if a[0] != b[0] {
        a[0] < b[0]
    } else {
        lex_le(a.skip(1), b.skip(1))
    }
}

/// `x` inserted into `s` before the first element it does not come after.
pub open spec fn insert_sorted(x: Seq<char>, s: Seq<Seq<char>>) -> Seq<Seq<char>>
    decreases s.len(),
{
    if s.len() == 0 {
        seq![x]
    } else if lex_le(x, s[0]) {
        seq![x] + s
    } else {
        seq![s[0]] + insert_sorted(x, s.skip(1))
    }
}

/// `s` in lexicographic order, by insertion; equal elements keep their order.
pub open spec fn sort_strings(s: Seq<Seq<char>>) -> Seq<Seq<char>>
    decreases s.len(),
{
    if s.len() == 0 {
        Seq::empty()
    } else {
        insert_sorted(s.last(), sort_strings(s.drop_last()))
    }
}

/// Whether `a` comes no later than `b` in lexicographic order.
pub fn lex_le_exec(a: &str, b: &str) -> (r: bool)
    ensures
        r == lex_le(a@, b@),
{
    let n = a.unicode_len();
    let m = b.unicode_len();
    let mut i: usize = 0;
    proof {
        assert(a@.skip(0) =~= a@);
        assert(b@.skip(0) =~= b@);
    }
    while i < n && i < m
        invariant
            i <= n == a@.len(),
            i <= m == b@.len(),
            lex_le(a@, b@) == lex_le(a@.skip(i as int), b@.skip(i as int)),
        decreases n - i,
    {
        let x = a.get_char(i);
        let y = b.get_char(i);
        assert(a@.skip(i as int)[0] == x);
        assert(b@.skip(i as int)[0] == y);
        if x != y {
            return x < y;
        }
        assert(a@.skip(i as int).skip(1) =~= a@.skip(i + 1));
        assert(b@.skip(i as int).skip(1) =~= b@.skip(i + 1));
        i = i + 1;
    }
    i == n
}

/// Inserting before the first element that `x` does not come after.
proof fn lemma_insert_sorted_at(x: Seq<char>, s: Seq<Seq<char>>, j: int)
    requires
        0 <= j <= s.len(),
        forall|k: int| 0 <= k < j ==> !lex_le(x, #[trigger] s[k]),
        j < s.len() ==> lex_le(x, s[j]),
    ensures
        insert_sorted(x, s) == s.take(j) + seq![x] + s.skip(j),
    decreases s.len(),
{
    if s.len() == 0 {
        assert(s.take(j) + seq![x] + s.skip(j) =~= seq![x]);
    } else if j == 0 {
        assert(s.take(0) + seq![x] + s.skip(0) =~= seq![x] + s);
    } else {
        let t = s.skip(1);
        assert forall|k: int| 0 <= k < j - 1 implies !lex_le(x, #[trigger] t[k]) by {
            assert(t[k] == s[k + 1]);
        }
        if j < s.len() {
            assert(t[j - 1] == s[j]);
        }
        assert(!lex_le(x, s[0]));
        lemma_insert_sorted_at(x, t, j - 1);
        assert(seq![s[0]] + (t.take(j - 1) + seq![x] + t.skip(j - 1)) =~= s.take(j) + seq![x] + s.skip(j));
    }
}

/// The texts of a list of strings.
pub open spec fn texts(v: Seq<String>) -> Seq<Seq<char>> {
    v.map_values(|s: String| s@)
}

/// Inserts `x` into `v` before the first element it does not come after.
fn insert_sorted_exec(v: &mut Vec<String>, x: String)
    ensures
        texts(final(v)@) == insert_sorted(x@, texts(old(v)@)),
{
    let ghost t = texts(v@);
    let mut j: usize = 0;
    let mut found = false;
    while j < v.len() && !found
        invariant
            j <= v@.len(),
            t == texts(v@),
            forall|k: int| 0 <= k < j ==> !lex_le(x@, #[trigger] t[k]),
            found ==> j < v@.len() && lex_le(x@, t[j as int]),
        decreases v@.len() - j + if found { 0int } else { 1int },
    {
        if lex_le_exec(x.as_str(), v[j].as_str()) {
            found = true;
        } else {
            j = j + 1;
        }
    }
    proof {
        lemma_insert_sorted_at(x@, t, j as int);
    }
    let ghost xv = x@;
    v.insert(j, x);
    assert(texts(v@) =~= t.take(j as int) + seq![xv] + t.skip(j as int));
}

/// Sorts the strings in lexicographic order.
pub fn sort_strings_exec(v: &Vec<String>) -> (r: Vec<String>)
    ensures
        texts(r@) == sort_strings(texts(v@)),
{
    let mut r: Vec<String> = Vec::new();
    let mut i: usize = 0;
    proof {
        assert(texts(v@).take(0) =~= Seq::<Seq<char>>::empty());
        assert(texts(r@) =~= Seq::<Seq<char>>::empty());
    }
    while i < v.len()
        invariant
            i <= v@.len(),
            texts(r@) == sort_strings(texts(v@).take(i as int)),
        decreases v@.len() - i,
    {
        let x = v[i].clone();
        proof {
            let p = texts(v@).take(i as int + 1);
            assert(p.drop_last() =~= texts(v@).take(i as int));
            assert(p.last() == v@[i as int]@);
        }
        insert_sorted_exec(&mut r, x);
        i = i + 1;
    }
    assert(texts(v@).take(i as int) =~= texts(v@));
    r
}

} // verus!
