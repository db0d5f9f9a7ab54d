use bendy::encoding::{AsString, ToBencode};
use vstd::prelude::*;

verus! {

/// The decimal digits of `n`, without leading zeros.
pub open spec fn decimal(n: nat) -> Seq<u8>
    decreases n,
{
    if n < 10 {
        seq![(48 + n) as u8]
    } else {
        decimal(n / 10).push((48 + n % 10) as u8)
    }
}

/// The bencoding of the integer `n`: `i`, its digits, `e`.
pub open spec fn bencode_int(n: nat) -> Seq<u8> {
    seq![105u8] + decimal(n) + seq![101u8]
}

/// The bencoding of the byte string `b`: its length in digits, `:`, its bytes.
pub open spec fn bencode_bytes(b: Seq<u8>) -> Seq<u8> {
    decimal(b.len()) + seq![58u8] + b
}

/// The encodings `items` one after the other.
pub open spec fn concat(items: Seq<Seq<u8>>) -> Seq<u8>
    decreases items.len(),
{
    if items.len() == 0 {
        Seq::empty()
    } else {
        concat(items.drop_last()) + items.last()
    }
}

/// The bencoding of a list whose items encode to `items`: `l`, the items, `e`.
pub open spec fn bencode_list(items: Seq<Seq<u8>>) -> Seq<u8> {
    seq![108u8] + concat(items) + seq![101u8]
}

/// The bencoding of a dictionary with the given keys, in the given order,
/// whose values encode to the given byte strings: `d`, each key as a byte
/// string followed by its value, `e`.
pub open spec fn bencode_dict(pairs: Seq<(Seq<u8>, Seq<u8>)>) -> Seq<u8> {
    seq![100u8] + dict_body(pairs) + seq![101u8]
}

/// The entries of a dictionary, each key as a byte string followed by its value.
pub open spec fn dict_body(pairs: Seq<(Seq<u8>, Seq<u8>)>) -> Seq<u8> {
    concat(pairs.map_values(|p: (Seq<u8>, Seq<u8>)| bencode_bytes(p.0) + p.1))
}

/// The bencoding of a byte string as a list of integers, one per byte.
pub open spec fn bencode_byte_list(b: Seq<u8>) -> Seq<u8> {
    bencode_list(b.map_values(|x: u8| bencode_int(x as nat)))
}

/// Byte string `a` sorts strictly before byte string `b`.
pub open spec fn bytes_less(a: Seq<u8>, b: Seq<u8>) -> bool
    decreases a.len(),
{
    if a.len() == 0 {
        b.len() > 0
    } else if b.len() == 0 {
        false
    } else if a[0] != b[0] {
        a[0] < b[0]
    } else {
        bytes_less(a.skip(1), b.skip(1))
    }
}

/// The keys of `pairs` are strictly increasing, as a bencoded dictionary
/// requires.
pub open spec fn keys_sorted(pairs: Seq<(Seq<u8>, Seq<u8>)>) -> bool {
    forall|i: int| 0 <= i < pairs.len() - 1 ==> bytes_less(#[trigger] pairs[i].0, pairs[i + 1].0)
}

pub proof fn lemma_concat_push(items: Seq<Seq<u8>>, x: Seq<u8>)
    ensures
        concat(items.push(x)) == concat(items) + x,
{
    assert(items.push(x).drop_last() =~= items);
}

pub proof fn lemma_dict_body_push(pairs: Seq<(Seq<u8>, Seq<u8>)>, key: Seq<u8>, value: Seq<u8>)
    ensures
        dict_body(pairs.push((key, value))) == dict_body(pairs) + bencode_bytes(key) + value,
{
    let f = |p: (Seq<u8>, Seq<u8>)| bencode_bytes(p.0) + p.1;
    assert(pairs.push((key, value)).map_values(f) =~= pairs.map_values(f).push(bencode_bytes(key) + value));
    lemma_concat_push(pairs.map_values(f), bencode_bytes(key) + value);
    assert(concat(pairs.map_values(f)) + (bencode_bytes(key) + value) =~= concat(pairs.map_values(f))
        + bencode_bytes(key) + value);
}

pub proof fn lemma_dict_body_empty()
    ensures
        dict_body(Seq::empty()) == Seq::<u8>::empty(),
{
    let f = |p: (Seq<u8>, Seq<u8>)| bencode_bytes(p.0) + p.1;
    assert(Seq::<(Seq<u8>, Seq<u8>)>::empty().map_values(f) =~= Seq::empty());
}

/// Calls `ToBencode::to_bencode` of `bendy` on a `u64`. The source shows that
/// it writes `i`, the number's `Display` form and `e`, and that it cannot
/// fail for an integer.
#[verifier::external_body]
fn bendy_integer(n: u64) -> (b: Vec<u8>)
    ensures
        b@ == bencode_int(n as nat),
{
    match n.to_bencode() {
        Ok(b) => b,
        Err(_) => Vec::new(),
    }
}

/// Calls `ToBencode::to_bencode` of `bendy` on `AsString` of a byte slice.
/// The source shows that it writes the length in decimal, `:` and the bytes,
/// and that it cannot fail for a byte string.
#[verifier::external_body]
fn bendy_byte_string(b: &[u8]) -> (e: Vec<u8>)
    ensures
        e@ == bencode_bytes(b@),
{
    match AsString(b).to_bencode() {
        Ok(e) => e,
        Err(_) => Vec::new(),
    }
}

/// Calls `ToBencode::to_bencode` of `bendy` on a `Vec<u8>`. The source shows
/// that a vector is encoded as a list, here of integers, one per byte, and
/// that it cannot fail for a list of integers.
#[verifier::external_body]
fn bendy_byte_list(b: &Vec<u8>) -> (e: Vec<u8>)
    ensures
        e@ == bencode_byte_list(b@),
{
    match b.to_bencode() {
        Ok(e) => e,
        Err(_) => Vec::new(),
    }
}

/// Appends the encodings of `tail` to `out`.
pub fn append(out: &mut Vec<u8>, tail: Vec<u8>)
    ensures
        final(out)@ == old(out)@ + tail@,
{
    let mut tail = tail;
    out.append(&mut tail);
}

/// Appends the bencoding of the integer `n`.
pub fn push_int(out: &mut Vec<u8>, n: u64)
    ensures
        final(out)@ == old(out)@ + bencode_int(n as nat),
{
    append(out, bendy_integer(n));
}

/// Appends the bencoding of the byte string `b`.
pub fn push_bytes(out: &mut Vec<u8>, b: &[u8])
    ensures
        final(out)@ == old(out)@ + bencode_bytes(b@),
{
    append(out, bendy_byte_string(b));
}

/// Appends the bencoding of `b` as a list of integers.
pub fn push_byte_list(out: &mut Vec<u8>, b: &Vec<u8>)
    ensures
        final(out)@ == old(out)@ + bencode_byte_list(b@),
{
    append(out, bendy_byte_list(b));
}

/// Appends a dictionary entry: `key` as a byte string, then the encoded `value`.
pub fn push_entry(out: &mut Vec<u8>, key: &[u8], value: Vec<u8>)
    ensures
        final(out)@ == old(out)@ + bencode_bytes(key@) + value@,
{
    push_bytes(out, key);
    append(out, value);
}

/// Appends a dictionary entry to the encoding of a dictionary under way,
/// whose entries so far are `pairs`.
pub fn add_entry(
    out: &mut Vec<u8>,
    key: &[u8],
    value: Vec<u8>,
    Ghost(pairs): Ghost<Seq<(Seq<u8>, Seq<u8>)>>,
)
    requires
        old(out)@ == seq![100u8] + dict_body(pairs),
    ensures
        final(out)@ == seq![100u8] + dict_body(pairs.push((key@, value@))),
{
    proof {
        lemma_dict_body_push(pairs, key@, value@);
    }
    push_entry(out, key, value);
    assert(final(out)@ =~= seq![100u8] + dict_body(pairs.push((key@, value@))));
}

/// Starts the encoding of a dictionary.
pub fn begin_dict() -> (out: Vec<u8>)
    ensures
        out@ == seq![100u8] + dict_body(Seq::empty()),
{
    proof {
        lemma_dict_body_empty();
    }
    let mut out: Vec<u8> = Vec::new();
    out.push(100);
    assert(out@ =~= seq![100u8] + dict_body(Seq::empty()));
    out
}

/// Ends the encoding of a dictionary whose entries are `pairs`.
pub fn end_dict(out: &mut Vec<u8>, Ghost(pairs): Ghost<Seq<(Seq<u8>, Seq<u8>)>>)
    requires
        old(out)@ == seq![100u8] + dict_body(pairs),
    ensures
        final(out)@ == bencode_dict(pairs),
{
    out.push(101);
}

/// The bencoding of the integer `n`.
pub fn encode_int(n: u64) -> (e: Vec<u8>)
    ensures
        e@ == bencode_int(n as nat),
{
    bendy_integer(n)
}

/// The bencoding of the byte string `b`.
pub fn encode_bytes(b: &[u8]) -> (e: Vec<u8>)
    ensures
        e@ == bencode_bytes(b@),
{
    bendy_byte_string(b)
}

/// The bencoding of `b` as a list of integers.
pub fn encode_byte_list(b: &Vec<u8>) -> (e: Vec<u8>)
    ensures
        e@ == bencode_byte_list(b@),
{
    bendy_byte_list(b)
}

/// Appends one byte.
pub fn push_byte(out: &mut Vec<u8>, b: u8)
    ensures
        final(out)@ == old(out)@.push(b),
{
    out.push(b);
}

} // verus!
