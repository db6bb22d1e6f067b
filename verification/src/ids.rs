//! Identifiers of clients and rooms.
//!
//! An identifier is a UUID, held as the number that its sixteen bytes make, most significant byte
//! first.

use std::collections::{BTreeMap, BTreeSet};
use vstd::prelude::*;
use vstd::std_specs::iter::IteratorSpec;

verus! {

/// What is known of collections with identifiers in them.
pub broadcast group group_id_collections {
    vstd::laws_cmp::group_laws_cmp,
    vstd::std_specs::btree::group_btree_axioms,
    vstd::std_specs::hash::group_hash_axioms,
}

/// The value of a hexadecimal digit, of either case.
pub open spec fn hex_value(c: char) -> Option<nat> {
    if '0' <= c <= '9' {
        Some((c as int - '0' as int) as nat)
    } else if 'a' <= c <= 'f' {
        Some((c as int - 'a' as int + 10) as nat)
    } else if 'A' <= c <= 'F' {
        Some((c as int - 'A' as int + 10) as nat)
    } else {
        None
    }
}

/// The lower-case hexadecimal digit of a value below 16.
pub open spec fn hex_digit(value: nat) -> char {
    if value < 10 {
        ('0' as int + value) as char
    } else {
        ('a' as int + (value - 10)) as char
    }
}

/// Nothing but hexadecimal digits.
pub open spec fn is_hex(digits: Seq<char>) -> bool {
    forall|i: int| 0 <= i < digits.len() ==> (#[trigger] hex_value(digits[i])) is Some
}

/// The number that hexadecimal digits make, most significant first.
pub open spec fn hex_number(digits: Seq<char>) -> nat
    decreases digits.len(),
{
    if digits.len() == 0 {
        0
    } else {
        hex_number(digits.drop_last()) * 16 + hex_value(digits.last())->0
    }
}

/// The last `width` hexadecimal digits of a number, most significant first.
pub open spec fn hex_digits(n: nat, width: nat) -> Seq<char>
    decreases width,
{
    if width == 0 {
        Seq::empty()
    } else {
        hex_digits(n / 16, (width - 1) as nat).push(hex_digit(n % 16))
    }
}

/// Thirty-two digits in five groups with hyphens between them.
pub open spec fn hyphenated(digits: Seq<char>) -> Seq<char> {
    digits.subrange(0, 8) + seq!['-'] + digits.subrange(8, 12) + seq!['-'] + digits.subrange(12, 16)
        + seq!['-'] + digits.subrange(16, 20) + seq!['-'] + digits.subrange(20, 32)
}

/// The digits of a hyphenated text.
pub open spec fn unhyphenated(s: Seq<char>) -> Seq<char> {
    s.subrange(0, 8) + s.subrange(9, 13) + s.subrange(14, 18) + s.subrange(19, 23) + s.subrange(
        24,
        36,
    )
}

/// Whether a text is thirty-two hexadecimal digits in five groups with hyphens between them.
pub open spec fn is_hyphenated(s: Seq<char>) -> bool {
    &&& s.len() == 36
    &&& s[8] == '-'
    &&& s[13] == '-'
    &&& s[18] == '-'
    &&& s[23] == '-'
    &&& is_hex(unhyphenated(s))
}

/// Whether a text starts with `urn:uuid:`, in letters of either case.
pub open spec fn has_urn_prefix(s: Seq<char>) -> bool {
    &&& s.len() >= 9
    &&& s[0] == 'u' || s[0] == 'U'
    &&& s[1] == 'r' || s[1] == 'R'
    &&& s[2] == 'n' || s[2] == 'N'
    &&& s[3] == ':'
    &&& s[4] == 'u' || s[4] == 'U'
    &&& s[5] == 'u' || s[5] == 'U'
    &&& s[6] == 'i' || s[6] == 'I'
    &&& s[7] == 'd' || s[7] == 'D'
    &&& s[8] == ':'
}

/// The text of an identifier: lower-case, hyphenated.
pub open spec fn id_text(id: u128) -> Seq<char> {
    hyphenated(hex_digits(id as nat, 32))
}

/// The identifier that a text stands for: bare digits, hyphenated, in braces, or as a URN.
pub open spec fn id_of_text(s: Seq<char>) -> Option<u128> {
    if s.len() == 32 && is_hex(s) {
        Some(hex_number(s) as u128)
    } else if is_hyphenated(s) {
        Some(hex_number(unhyphenated(s)) as u128)
    } else if s.len() == 38 && s[0] == '{' && s[37] == '}' && is_hyphenated(s.subrange(1, 37)) {
        Some(hex_number(unhyphenated(s.subrange(1, 37))) as u128)
    } else if s.len() == 45 && has_urn_prefix(s) && is_hyphenated(s.subrange(9, 45)) {
        Some(hex_number(unhyphenated(s.subrange(9, 45))) as u128)
    } else {
        None
    }
}

/// `uuid::Uuid::to_string` of the UUID with this number: thirty-two lower-case hexadecimal digits,
/// most significant first, in groups of 8, 4, 4, 4 and 12 with hyphens between them.
#[verifier::external_body]
pub(crate) fn format_id(id: u128) -> (r: String)
    ensures
        r@ == id_text(id),
{
    uuid::Uuid::from_u128(id).to_string()
}

/// `uuid::Uuid::try_parse`: reads thirty-two hexadecimal digits of either case, on their own or
/// hyphenated, the latter also in braces or after `urn:uuid:`. Every other text is an error.
#[verifier::external_body]
pub(crate) fn parse_id(text: &str) -> (r: Option<u128>)
    ensures
        r == id_of_text(text@),
{
    uuid::Uuid::try_parse(text).ok().map(|id| id.as_u128())
}

/// An identifier can be read back from its text.
pub proof fn law_id_round_trip(id: u128)
    ensures
        id_of_text(id_text(id)) == Some(id),
{
    let digits = hex_digits(id as nat, 32);
    let text = id_text(id);
    lemma_hex_digits(id as nat, 32);
    assert(unhyphenated(text) =~= digits);
    assert(vstd::arithmetic::power::pow(16, 32) == 0x1_0000_0000_0000_0000_0000_0000_0000_0000) by {
        lemma_pow_16_32();
    }
    vstd::arithmetic::div_mod::lemma_small_mod(
        id as nat,
        vstd::arithmetic::power::pow(16, 32) as nat,
    );
}

/// Two identifiers with the same text are the same.
pub proof fn law_id_text_injective(a: u128, b: u128)
    requires
        id_text(a) == id_text(b),
    ensures
        a == b,
{
    law_id_round_trip(a);
    law_id_round_trip(b);
}

/// The digits of a number are hexadecimal digits and make the number again, as far as they reach.
proof fn lemma_hex_digits(n: nat, width: nat)
    ensures
        hex_digits(n, width).len() == width,
        is_hex(hex_digits(n, width)),
        hex_number(hex_digits(n, width)) == n % (vstd::arithmetic::power::pow(
            16,
            width,
        ) as nat),
    decreases width,
{
    broadcast use vstd::arithmetic::power::lemma_pow_positive;

    if width == 0 {
        vstd::arithmetic::power::lemma_pow0(16);
    } else {
        let rest = (width - 1) as nat;
        let digits = hex_digits(n, width);
        let p = vstd::arithmetic::power::pow(16, rest) as nat;
        lemma_hex_digits(n / 16, rest);
        assert(digits.drop_last() =~= hex_digits(n / 16, rest));
        assert(hex_value(hex_digit(n % 16)) == Some(n % 16));
        assert forall|i: int| 0 <= i < digits.len() implies (#[trigger] hex_value(
            digits[i],
        )) is Some by {
            if i < rest {
                assert(digits[i] == hex_digits(n / 16, rest)[i]);
            }
        }
        vstd::arithmetic::power::lemma_pow1(16);
        vstd::arithmetic::power::lemma_pow_adds(16, 1, rest);
        vstd::arithmetic::div_mod::lemma_mod_breakdown(n as int, 16, p as int);
        assert((n / 16) % p * 16 + n % 16 == 16 * ((n / 16) % p) + n % 16);
    }
}

proof fn lemma_pow_16_32()
    ensures
        vstd::arithmetic::power::pow(16, 32) == 0x1_0000_0000_0000_0000_0000_0000_0000_0000,
{
    reveal(vstd::arithmetic::power::pow);
    reveal_with_fuel(vstd::arithmetic::power::pow, 33);
}

/// The order of identifiers.
pub open spec fn id_order() -> spec_fn(u128, u128) -> bool {
    |a: u128, b: u128| a <= b
}

/// Identifiers in ascending order.
pub open spec fn ascending(ids: Set<u128>) -> Seq<u128> {
    ids.to_sorted_seq(id_order())
}

/// There are only so many identifiers.
pub proof fn lemma_ids_finite(ids: Set<u128>)
    ensures
        ids.finite(),
{
    let numbers = vstd::set_lib::set_int_range(0, u128::MAX + 1);
    let to_id = |i: int| i as u128;
    vstd::set_lib::lemma_int_range(0, u128::MAX + 1);
    numbers.lemma_map_finite(to_id);
    assert forall|id: u128| ids.contains(id) implies numbers.map(to_id).contains(id) by {
        assert(numbers.contains(id as int));
        assert(to_id(id as int) == id);
    }
    vstd::set_lib::lemma_set_subset_finite(numbers.map(to_id), ids);
}

/// Each identifier of a set stands once in the ascending list, and nothing else does.
pub proof fn lemma_ascending(ids: Set<u128>)
    ensures
        ascending(ids).no_duplicates(),
        ascending(ids).len() == ids.len(),
        forall|id: u128| #[trigger] ascending(ids).contains(id) <==> ids.contains(id),
{
    broadcast use vstd::seq_lib::group_to_multiset_ensures;

    lemma_ids_finite(ids);
    let list = ids.to_seq();
    ids.lemma_to_seq_to_set_id();
    lemma_to_seq_no_duplicates(ids);
    list.lemma_sort_by_ensures(id_order());
    list.lemma_multiset_has_no_duplicates();
    ascending(ids).lemma_multiset_has_no_duplicates_conv();
    assert(ascending(ids).to_multiset() == list.to_multiset());
    assert(ascending(ids).to_multiset().len() == list.to_multiset().len());
    list.unique_seq_to_set();
    assert forall|id: u128| #[trigger] ascending(ids).contains(id) <==> ids.contains(id) by {
        assert(ascending(ids).contains(id) <==> ascending(ids).to_multiset().count(id) > 0);
        assert(list.contains(id) <==> list.to_multiset().count(id) > 0);
        assert(list.to_set().contains(id) <==> list.contains(id));
    }
}

proof fn lemma_to_seq_no_duplicates(ids: Set<u128>)
    requires
        ids.finite(),
    ensures
        ids.to_seq().no_duplicates(),
    decreases ids.len(),
{
    if ids.len() != 0 {
        let x = ids.choose();
        lemma_to_seq_no_duplicates(ids.remove(x));
        ids.remove(x).lemma_to_seq_to_set_id();
        assert(!ids.remove(x).to_seq().to_set().contains(x));
        assert(!ids.remove(x).to_seq().contains(x));
    }
}

/// A strictly increasing list of the members of a set is the ascending one.
proof fn lemma_ascending_unique(list: Seq<u128>, ids: Set<u128>)
    requires
        list.no_duplicates(),
        list.to_set() == ids,
        forall|i: int, j: int| 0 <= i < j < list.len() ==> list[i] < list[j],
    ensures
        list == ascending(ids),
{
    broadcast use vstd::seq_lib::group_to_multiset_ensures;

    lemma_ascending(ids);
    let sorted = ascending(ids);
    ids.to_seq().lemma_sort_by_ensures(id_order());
    list.lemma_multiset_has_no_duplicates();
    sorted.lemma_multiset_has_no_duplicates();
    assert(list.to_multiset() =~= sorted.to_multiset()) by {
        assert forall|id: u128| list.to_multiset().count(id) == sorted.to_multiset().count(id) by {
            assert(list.contains(id) <==> list.to_set().contains(id));
            assert(list.contains(id) <==> list.to_multiset().count(id) > 0);
            assert(sorted.contains(id) <==> sorted.to_multiset().count(id) > 0);
        }
    }
    vstd::seq_lib::lemma_sorted_unique(list, sorted, id_order());
}

/// An increasing list of references holds smaller identifiers before larger ones.
proof fn lemma_increasing(list: Seq<&u128>)
    requires
        vstd::std_specs::btree::increasing_seq(list),
    ensures
        forall|i: int, j: int| 0 <= i < j < list.len() ==> *list[i] < *list[j],
{
    broadcast use group_id_collections;

    assert(vstd::laws_cmp::obeys_cmp::<u128>());
    assert(vstd::laws_cmp::obeys_cmp::<&u128>());
    assert forall|i: int, j: int| 0 <= i < j < list.len() implies *list[i] < *list[j] by {
        assert(vstd::std_specs::cmp::OrdSpec::cmp_spec(&list[i], &list[j]) is Less);
    }
}

/// The members of a set of identifiers in ascending order.
pub fn sorted_ids(ids: &BTreeSet<u128>) -> (r: Vec<u128>)
    ensures
        r@ == ascending(ids@),
{
    broadcast use group_id_collections;

    let mut r: Vec<u128> = Vec::new();
    for id in it: ids.iter()
        invariant
            r@ == it.seq().unref().take(it.index()),
    {
        r.push(*id);
    }
    proof {
        let list = vstd::std_specs::btree::spec_btree_keys_iter(ids).remaining();
        lemma_increasing(list);
        assert(r@ =~= list.unref());
        lemma_ascending_unique(r@, ids@);
    }
    r
}

/// The keys of a map in ascending order.
pub fn sorted_keys<V>(map: &BTreeMap<u128, V>) -> (r: Vec<u128>)
    ensures
        r@ == ascending(map@.dom()),
{
    broadcast use group_id_collections;

    let mut r: Vec<u128> = Vec::new();
    for id in it: map.keys()
        invariant
            r@ == it.seq().unref().take(it.index()),
    {
        r.push(*id);
    }
    proof {
        let list = vstd::std_specs::btree::spec_keys_iter(map).remaining();
        lemma_increasing(list);
        assert(r@ =~= list.unref());
        lemma_ascending_unique(r@, map@.dom());
    }
    r
}

} // verus!
