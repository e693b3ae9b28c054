//! The binary claim map carried in a signed token's payload: a sequence of
//! entries, each a name and a value, each field prefixed by its length as
//! 8 little-endian bytes.
use crate::bytes::{append_bytes, copy_range};
use vstd::bytes::{
    lemma_auto_spec_u64_to_from_le_bytes, spec_u64_from_le_bytes, spec_u64_to_le_bytes,
    u64_from_le_bytes, u64_to_le_bytes,
};
use vstd::prelude::*;

verus! {

/// Size in bytes of a field's length prefix.
pub const LEN_SIZE: usize = 8;

/// One claim: a name and a value, both raw bytes.
pub struct ClaimEntry {
    /// The claim's name.
    pub name: Vec<u8>,
    /// The claim's value.
    pub value: Vec<u8>,
}

impl View for ClaimEntry {
    type V = (Seq<u8>, Seq<u8>);

    open spec fn view(&self) -> (Seq<u8>, Seq<u8>) {
        (self.name@, self.value@)
    }
}

/// The entries as pairs of byte sequences.
pub open spec fn entries_view(es: Seq<ClaimEntry>) -> Seq<(Seq<u8>, Seq<u8>)> {
    es.map_values(|e: ClaimEntry| e@)
}

/// Every field is short enough for its length prefix.
pub open spec fn fields_fit(es: Seq<(Seq<u8>, Seq<u8>)>) -> bool {
    forall|i: int| 0 <= i < es.len() ==> #[trigger] es[i].0.len() <= u64::MAX && es[i].1.len() <= u64::MAX
}

/// A field: its length, then its bytes.
pub open spec fn encode_field(f: Seq<u8>) -> Seq<u8> {
    spec_u64_to_le_bytes(f.len() as u64) + f
}

/// An entry: its name field, then its value field.
pub open spec fn encode_entry(e: (Seq<u8>, Seq<u8>)) -> Seq<u8> {
    encode_field(e.0) + encode_field(e.1)
}

/// The entries, one after the other.
pub open spec fn encode_entries(es: Seq<(Seq<u8>, Seq<u8>)>) -> Seq<u8>
    decreases es.len(),
{
    if es.len() == 0 {
        Seq::empty()
    } else {
        encode_entry(es[0]) + encode_entries(es.skip(1))
    }
}

/// The field at the start of `b` and the number of bytes it takes.
pub open spec fn parse_field(b: Seq<u8>) -> Option<(Seq<u8>, int)> {
    if b.len() < LEN_SIZE {
        None
    } else {
        let n = spec_u64_from_le_bytes(b.subrange(0, LEN_SIZE as int)) as int;
        if n <= b.len() - LEN_SIZE {
            Some((b.subrange(LEN_SIZE as int, LEN_SIZE + n), LEN_SIZE + n))
        } else {
            None
        }
    }
}

/// The entry at the start of `b` and the number of bytes it takes.
pub open spec fn parse_entry(b: Seq<u8>) -> Option<((Seq<u8>, Seq<u8>), int)> {
    match parse_field(b) {
        None => None,
        Some((name, k)) => match parse_field(b.skip(k)) {
            None => None,
            Some((value, m)) => Some(((name, value), k + m)),
        },
    }
}

/// The entries that `b` holds, if it is exactly a sequence of entries.
pub open spec fn parse_entries(b: Seq<u8>) -> Option<Seq<(Seq<u8>, Seq<u8>)>>
    decreases b.len(),
{
    if b.len() == 0 {
        Some(Seq::empty())
    } else {
        match parse_entry(b) {
            None => None,
            Some((e, k)) => if 0 < k <= b.len() {
                match parse_entries(b.skip(k)) {
                    None => None,
                    Some(rest) => Some(seq![e] + rest),
                }
            } else {
                None
            },
        }
    }
}

/// `acc` followed by what `rest` holds, if it holds anything.
pub open spec fn prepend(
    acc: Seq<(Seq<u8>, Seq<u8>)>,
    rest: Option<Seq<(Seq<u8>, Seq<u8>)>>,
) -> Option<Seq<(Seq<u8>, Seq<u8>)>> {
    match rest {
        None => None,
        Some(r) => Some(acc + r),
    }
}

proof fn lemma_parse_field(f: Seq<u8>, rest: Seq<u8>)
    requires
        f.len() <= u64::MAX,
    ensures
        parse_field(encode_field(f) + rest) == Some((f, LEN_SIZE + f.len())),
{
    lemma_auto_spec_u64_to_from_le_bytes();
    let b = encode_field(f) + rest;
    assert(b.subrange(0, LEN_SIZE as int) =~= spec_u64_to_le_bytes(f.len() as u64));
    assert(b.subrange(LEN_SIZE as int, LEN_SIZE + f.len()) =~= f);
}

proof fn lemma_parse_entry(e: (Seq<u8>, Seq<u8>), rest: Seq<u8>)
    requires
        e.0.len() <= u64::MAX,
        e.1.len() <= u64::MAX,
    ensures
        parse_entry(encode_entry(e) + rest) == Some((e, encode_entry(e).len() as int)),
        encode_entry(e).len() > 0,
{
    lemma_auto_spec_u64_to_from_le_bytes();
    let b = encode_entry(e) + rest;
    assert(b =~= encode_field(e.0) + (encode_field(e.1) + rest));
    lemma_parse_field(e.0, encode_field(e.1) + rest);
    assert(b.skip(LEN_SIZE + e.0.len()) =~= encode_field(e.1) + rest);
    lemma_parse_field(e.1, rest);
}

/// Entries encoded one after the other parse back to the same entries.
pub proof fn lemma_entries_round_trip(es: Seq<(Seq<u8>, Seq<u8>)>)
    requires
        fields_fit(es),
    ensures
        parse_entries(encode_entries(es)) == Some(es),
    decreases es.len(),
{
    if es.len() > 0 {
        let tail = es.skip(1);
        assert(fields_fit(tail)) by {
            assert forall|i: int| 0 <= i < tail.len() implies #[trigger] tail[i].0.len() <= u64::MAX
                && tail[i].1.len() <= u64::MAX by {
                assert(tail[i] == es[i + 1]);
            }
        }
        assert(es[0].0.len() <= u64::MAX && es[0].1.len() <= u64::MAX);
        lemma_entries_round_trip(tail);
        let b = encode_entries(es);
        lemma_parse_entry(es[0], encode_entries(tail));
        assert(b.skip(encode_entry(es[0]).len() as int) =~= encode_entries(tail));
        assert(seq![es[0]] + tail =~= es);
    }
}

proof fn lemma_encode_entries_push(es: Seq<(Seq<u8>, Seq<u8>)>, e: (Seq<u8>, Seq<u8>))
    ensures
        encode_entries(es.push(e)) == encode_entries(es) + encode_entry(e),
    decreases es.len(),
{
    if es.len() == 0 {
        assert(es.push(e).skip(1) =~= Seq::<(Seq<u8>, Seq<u8>)>::empty());
        assert(es.push(e)[0] == e);
        assert(encode_entries(Seq::<(Seq<u8>, Seq<u8>)>::empty()) =~= Seq::<u8>::empty());
        assert(encode_entries(es.push(e)) =~= encode_entry(e));
        assert(encode_entries(es) =~= Seq::<u8>::empty());
    } else {
        lemma_encode_entries_push(es.skip(1), e);
        assert(es.push(e).skip(1) =~= es.skip(1).push(e));
        assert(encode_entries(es.push(e)) =~= encode_entries(es) + encode_entry(e));
    }
}

fn encode_field_into(out: &mut Vec<u8>, f: &[u8])
    ensures
        final(out)@ == old(out)@ + encode_field(f@),
{
    let len = u64_to_le_bytes(f.len() as u64);
    append_bytes(out, &len);
    append_bytes(out, f);
    proof {
        assert(final(out)@ =~= old(out)@ + encode_field(f@));
    }
}

/// Encodes the entries one after the other.
pub fn encode_entries_exec(es: &Vec<ClaimEntry>) -> (r: Vec<u8>)
    ensures
        r@ == encode_entries(entries_view(es@)),
{
    let mut r: Vec<u8> = Vec::new();
    let mut i: usize = 0;
    while i < es.len()
        invariant
            i <= es@.len(),
            r@ == encode_entries(entries_view(es@).take(i as int)),
        decreases es@.len() - i,
    {
        let e = &es[i];
        encode_field_into(&mut r, &e.name);
        encode_field_into(&mut r, &e.value);
        proof {
            let v = entries_view(es@);
            lemma_encode_entries_push(v.take(i as int), v[i as int]);
            assert(v.take(i as int).push(v[i as int]) =~= v.take(i as int + 1));
        }
        i = i + 1;
    }
    proof {
        assert(entries_view(es@).take(es@.len() as int) =~= entries_view(es@));
    }
    r
}

/// Reads the field that starts at `pos`, with the number of bytes it takes.
fn parse_field_at(b: &[u8], pos: usize) -> (r: Option<(Vec<u8>, usize)>)
    requires
        pos <= b@.len(),
    ensures
        match parse_field(b@.skip(pos as int)) {
            None => r is None,
            Some((f, k)) => r matches Some(p) && p.0@ == f && p.1 == k,
        },
{
    let ghost rest = b@.skip(pos as int);
    if b.len() - pos < LEN_SIZE {
        return None;
    }
    let len_bytes = copy_range(b, pos, pos + LEN_SIZE);
    assert(len_bytes@ =~= rest.subrange(0, LEN_SIZE as int));
    let n = u64_from_le_bytes(&len_bytes);
    if n > (b.len() - pos - LEN_SIZE) as u64 {
        return None;
    }
    let end = pos + LEN_SIZE + n as usize;
    let f = copy_range(b, pos + LEN_SIZE, end);
    assert(f@ =~= rest.subrange(LEN_SIZE as int, LEN_SIZE + n));
    Some((f, LEN_SIZE + n as usize))
}

/// Reads the entries that `b` holds; `None` when it is not exactly a
/// sequence of entries.
pub fn parse_entries_exec(b: &[u8]) -> (r: Option<Vec<ClaimEntry>>)
    ensures
        match parse_entries(b@) {
            None => r is None,
            Some(es) => r matches Some(v) && entries_view(v@) == es,
        },
{
    let mut acc: Vec<ClaimEntry> = Vec::new();
    let mut pos: usize = 0;
    proof {
        assert(b@.skip(0) =~= b@);
        assert(entries_view(acc@) =~= Seq::<(Seq<u8>, Seq<u8>)>::empty());
        match parse_entries(b@) {
            None => {},
            Some(t) => {
                assert(Seq::<(Seq<u8>, Seq<u8>)>::empty() + t =~= t);
            },
        }
    }
    while pos < b.len()
        invariant
            pos <= b@.len(),
            parse_entries(b@) == prepend(entries_view(acc@), parse_entries(b@.skip(pos as int))),
        decreases b@.len() - pos,
    {
        let rest = Ghost(b@.skip(pos as int));
        let (name, k) = match parse_field_at(b, pos) {
            Some(p) => p,
            None => return None,
        };
        let (value, m) = match parse_field_at(b, pos + k) {
            Some(p) => p,
            None => {
                proof {
                    assert(rest@.skip(k as int) =~= b@.skip(pos + k));
                }
                return None;
            },
        };
        proof {
            assert(rest@.skip(k as int) =~= b@.skip(pos + k));
            assert(rest@.skip(k + m) =~= b@.skip(pos + k + m));
            let e = (name@, value@);
            let old_acc = entries_view(acc@);
            assert(parse_entry(rest@) == Some((e, k + m)));
            assert(entries_view(acc@.push(ClaimEntry { name, value })) =~= old_acc.push(e));
            match parse_entries(rest@.skip(k + m)) {
                None => {},
                Some(t) => {
                    assert(old_acc + (seq![e] + t) =~= old_acc.push(e) + t);
                },
            }
        }
        acc.push(ClaimEntry { name, value });
        pos = pos + k + m;
    }
    proof {
        assert(b@.skip(pos as int) =~= Seq::<u8>::empty());
        assert(entries_view(acc@) + Seq::empty() =~= entries_view(acc@));
    }
    Some(acc)
}

} // verus!
