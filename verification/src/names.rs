//! The names of the records that hold an application's key and counter.

use vstd::prelude::*;

verus! {

/// The lower-case hexadecimal digit for `n`, which is below 16.
pub open spec fn hex_digit(n: int) -> char {
    seq!['0', '1', '2', '3', '4', '5', '6', '7', '8', '9', 'a', 'b', 'c', 'd', 'e', 'f'][n]
}

/// The lower-case hexadecimal text of `bytes`: two digits for each byte, the
/// high half first.
pub open spec fn hex_text(bytes: Seq<u8>) -> Seq<char> {
    Seq::new(
        2 * bytes.len(),
        |i: int|
            if i % 2 == 0 {
                hex_digit(bytes[i / 2] as int / 16)
            } else {
                hex_digit(bytes[i / 2] as int % 16)
            },
    )
}

/// What follows the application's hexadecimal text in the name of its key
/// record.
pub open spec fn key_suffix() -> Seq<char> {
    seq!['.', 'j', 's', 'o', 'n']
}

/// What follows the application's hexadecimal text in the name of its
/// counter record.
pub open spec fn counter_suffix() -> Seq<char> {
    seq!['.', 'c', 'o', 'u', 'n', 't', 'e', 'r']
}

/// The name of the record that holds the key of `application`.
pub open spec fn key_name(application: Seq<u8>) -> Seq<char> {
    hex_text(application) + key_suffix()
}

/// The name of the record that holds the counter of `application`.
pub open spec fn counter_name(application: Seq<u8>) -> Seq<char> {
    hex_text(application) + counter_suffix()
}

/// `hex::encode` on a byte slice: the result holds two characters for each
/// byte, taken from `0123456789abcdef` by the byte's high and low four bits,
/// in the order of the bytes.
#[verifier::external_body]
fn hex_encode(bytes: &[u8]) -> (r: String)
    ensures
        r@ == hex_text(bytes@),
{
    hex::encode(bytes)
}

/// `String::push_str` appends the characters of `other` to `s` and changes
/// nothing else.
pub assume_specification[ String::push_str ](s: &mut String, other: &str)
    ensures
        final(s)@ == old(s)@ + other@,
;

/// The name of the record that holds the key of `application`.
pub fn key_record_name(application: &[u8; 32]) -> (r: String)
    ensures
        r@ == key_name(application@),
{
    let mut name = hex_encode(application.as_slice());
    proof {
        reveal_strlit(".json");
        assert(".json"@ =~= key_suffix());
    }
    name.push_str(".json");
    name
}

/// The name of the record that holds the counter of `application`.
pub fn counter_record_name(application: &[u8; 32]) -> (r: String)
    ensures
        r@ == counter_name(application@),
{
    let mut name = hex_encode(application.as_slice());
    proof {
        reveal_strlit(".counter");
        assert(".counter"@ =~= counter_suffix());
    }
    name.push_str(".counter");
    name
}

/// Two byte strings with the same hexadecimal text are the same.
pub proof fn lemma_hex_text_injective(a: Seq<u8>, b: Seq<u8>)
    requires
        hex_text(a) == hex_text(b),
    ensures
        a == b,
{
    assert(hex_text(a).len() == 2 * a.len());
    assert(hex_text(b).len() == 2 * b.len());
    assert forall|i: int| 0 <= i < a.len() implies a[i] == b[i] by {
        let hi_a = a[i] as int / 16;
        let hi_b = b[i] as int / 16;
        let lo_a = a[i] as int % 16;
        let lo_b = b[i] as int % 16;
        assert(hex_text(a)[2 * i] == hex_digit(hi_a));
        assert(hex_text(b)[2 * i] == hex_digit(hi_b));
        assert(hex_text(a)[2 * i + 1] == hex_digit(lo_a));
        assert(hex_text(b)[2 * i + 1] == hex_digit(lo_b));
        assert(hi_a == hi_b);
        assert(lo_a == lo_b);
    }
    assert(a =~= b);
}

/// Distinct applications have distinct key records and distinct counter
/// records.
pub proof fn lemma_names_distinct(a: Seq<u8>, b: Seq<u8>)
    requires
        a != b,
    ensures
        key_name(a) != key_name(b),
        counter_name(a) != counter_name(b),
{
    if key_name(a) == key_name(b) {
        assert(key_name(a).len() == key_name(b).len());
        assert(hex_text(a) =~= key_name(a).take(2 * a.len() as int));
        assert(hex_text(b) =~= key_name(b).take(2 * b.len() as int));
        lemma_hex_text_injective(a, b);
    }
    if counter_name(a) == counter_name(b) {
        assert(counter_name(a).len() == counter_name(b).len());
        assert(hex_text(a) =~= counter_name(a).take(2 * a.len() as int));
        assert(hex_text(b) =~= counter_name(b).take(2 * b.len() as int));
        lemma_hex_text_injective(a, b);
    }
}

/// No key record shares its name with a counter record, whatever the
/// applications: the two names differ in length.
pub proof fn lemma_key_and_counter_names_differ(a: Seq<u8>, b: Seq<u8>)
    ensures
        key_name(a) != counter_name(b),
{
    assert(key_name(a).len() == 2 * a.len() + 5);
    assert(counter_name(b).len() == 2 * b.len() + 8);
}

} // verus!
