//! Texts and lists: numbers, order and sorting.
use vstd::prelude::*;

use crate::sorting::{stable_sort, Ranked};
use crate::text::{
    bytes_before, decimal, has_suffix, is_text_before, numbered, prefixed, push_decimal, same_text,
    strip_suffix,
};

verus! {

/// The number that digits spell.
pub open spec fn value_of(digits: Seq<char>) -> nat
    decreases digits.len(),
{
    if digits.len() == 0 {
        0
    } else {
        value_of(digits.drop_last()) * 10 + (digits.last() as nat - '0' as nat) as nat
    }
}

/// The text spells the number in decimal, without leading zeros.
pub open spec fn spells(text: Seq<char>, n: nat) -> bool {
    &&& text.len() > 0
    &&& forall|i: int| 0 <= i < text.len() ==> '0' <= #[trigger] text[i] <= '9'
    &&& text[0] == '0' ==> text.len() == 1
    &&& value_of(text) == n
}

pub proof fn law_decimal_spells_its_number(n: nat)
    ensures
        spells(decimal(n), n),
    decreases n,
{
    reveal_with_fuel(value_of, 2);
    let d = decimal(n);
    let last = crate::text::digit(n % 10);
    assert(last as nat - '0' as nat == n % 10);
    if n >= 10 {
        let front = decimal(n / 10);
        law_decimal_spells_its_number(n / 10);
        assert(d.drop_last() =~= front);
        assert(d.last() == last);
        assert(d[0] == front[0]);
        if d[0] == '0' {
            assert(front.len() == 1);
            assert(front.last() == '0');
        }
    } else {
        assert(d.last() == last);
    }
}

/// A number is appended in decimal, behind what was there.
pub proof fn law_number_is_appended(s: &mut String, n: u128)
    requires
        call_ensures(push_decimal, (s, n), ()),
    ensures
        old(s)@.len() <= final(s)@.len(),
        final(s)@.subrange(0, old(s)@.len() as int) == old(s)@,
        spells(final(s)@.skip(old(s)@.len() as int), n as nat),
{
    law_decimal_spells_its_number(n as nat);
    assert(final(s)@.subrange(0, old(s)@.len() as int) =~= old(s)@);
    assert(final(s)@.skip(old(s)@.len() as int) =~= decimal(n as nat));
}

/// A numbered text is its prefix, the number and its suffix.
pub proof fn law_numbered_text_holds_its_number(prefix: &str, n: u64, suffix: &str, s: String)
    requires
        call_ensures(numbered, (prefix, n, suffix), s),
    ensures
        exists|digits: Seq<char>|
            spells(digits, n as nat) && s@ == #[trigger] (prefix@ + digits + suffix@),
{
    law_decimal_spells_its_number(n as nat);
    assert(s@ == prefix@ + decimal(n as nat) + suffix@);
}

/// Texts are told to be the same exactly if they are.
pub proof fn law_same_texts_are_the_same(a: &str, b: &str, r: bool)
    requires
        call_ensures(same_text, (a, b), r),
    ensures
        r <==> a@ == b@,
{
}

/// Prefixing puts the one text before the other.
pub proof fn law_prefix_comes_first(prefix: &str, text: &str, s: String)
    requires
        call_ensures(prefixed, (prefix, text), s),
    ensures
        s@ == prefix@ + text@,
{
}

/// One byte string comes before another exactly if it does so in the first byte in which they
/// differ, or is the beginning of the other and shorter.
pub open spec fn comes_before(a: Seq<u8>, b: Seq<u8>) -> bool {
    exists|i: int|
        #![trigger a.subrange(0, i)]
        {
            &&& 0 <= i <= a.len()
            &&& i < b.len()
            &&& a.subrange(0, i) == b.subrange(0, i)
            &&& i < a.len() ==> a[i] < b[i]
        }
}

proof fn lemma_comes_before(a: Seq<u8>, b: Seq<u8>)
    ensures
        bytes_before(a, b) <==> comes_before(a, b),
    decreases a.len(),
{
    if b.len() == 0 {
    } else if a.len() == 0 {
        assert(a.subrange(0, 0) =~= b.subrange(0, 0));
    } else if a[0] != b[0] {
        if a[0] < b[0] {
            assert(a.subrange(0, 0) =~= b.subrange(0, 0));
        }
        if comes_before(a, b) {
            let i = choose|i: int|
                #![trigger a.subrange(0, i)]
                {
                    &&& 0 <= i <= a.len()
                    &&& i < b.len()
                    &&& a.subrange(0, i) == b.subrange(0, i)
                    &&& i < a.len() ==> a[i] < b[i]
                };
            if i > 0 {
                assert(a.subrange(0, i)[0] == a[0]);
                assert(b.subrange(0, i)[0] == b[0]);
            }
        }
    } else {
        let (x, y) = (a.drop_first(), b.drop_first());
        lemma_comes_before(x, y);
        if comes_before(x, y) {
            let i = choose|i: int|
                #![trigger x.subrange(0, i)]
                {
                    &&& 0 <= i <= x.len()
                    &&& i < y.len()
                    &&& x.subrange(0, i) == y.subrange(0, i)
                    &&& i < x.len() ==> x[i] < y[i]
                };
            assert(a.subrange(0, i + 1) =~= seq![a[0]] + x.subrange(0, i));
            assert(b.subrange(0, i + 1) =~= seq![b[0]] + y.subrange(0, i));
        }
        if comes_before(a, b) {
            let i = choose|i: int|
                #![trigger a.subrange(0, i)]
                {
                    &&& 0 <= i <= a.len()
                    &&& i < b.len()
                    &&& a.subrange(0, i) == b.subrange(0, i)
                    &&& i < a.len() ==> a[i] < b[i]
                };
            assert(i > 0);
            assert(x.subrange(0, i - 1) =~= a.subrange(0, i).skip(1));
            assert(y.subrange(0, i - 1) =~= b.subrange(0, i).skip(1));
        }
    }
}

/// Texts are ordered as dictionaries are, by their bytes.
pub proof fn law_texts_are_ordered_by_their_bytes(a: &str, b: &str, r: bool)
    requires
        call_ensures(is_text_before, (a, b), r),
    ensures
        r <==> comes_before(vstd::utf8::encode_utf8(a@), vstd::utf8::encode_utf8(b@)),
{
    lemma_comes_before(vstd::utf8::encode_utf8(a@), vstd::utf8::encode_utf8(b@));
}

/// What stands before a suffix is found exactly if the text ends with the suffix, and is the rest
/// of the text.
pub proof fn law_suffix_is_stripped(s: &str, suffix: &str, r: Option<&str>, found: bool)
    requires
        call_ensures(strip_suffix, (s, suffix), r),
        call_ensures(has_suffix, (s, suffix), found),
    ensures
        r is Some <==> found,
        r is Some ==> r->0@ + suffix@ == s@,
        forall|base: Seq<char>| s@ == #[trigger] (base + suffix@) ==> r is Some && r->0@ == base,
{
    let n = s@.len() - suffix@.len();
    if r is Some {
        assert(r->0@ + suffix@ =~= s@);
    }
    assert forall|base: Seq<char>| s@ == #[trigger] (base + suffix@) implies r is Some && r->0@
        == base by {
        assert(s@.subrange(n, s@.len() as int) =~= suffix@);
        assert(s@.subrange(0, n) =~= base);
    }
}

/// A sorted list holds the same items, and none comes before one that stands before it.
pub proof fn law_sorting_keeps_the_items<T: Ranked>(items: Vec<T>, out: Vec<T>)
    requires
        call_ensures(stable_sort::<T>, (items,), out),
    ensures
        out@.to_multiset() == items@.to_multiset(),
        out@.len() == items@.len(),
        forall|i: int, j: int|
            0 <= i < j < out@.len() ==> !(#[trigger] out@[j]).precedes(#[trigger] &out@[i]),
{
    out@.to_multiset_ensures();
    items@.to_multiset_ensures();
}

/// Items that rank the same stand as they stood.
pub proof fn law_sorting_keeps_the_order_of_equals<T: Ranked>(items: Vec<T>, out: Vec<T>, k: T)
    requires
        call_ensures(stable_sort::<T>, (items,), out),
    ensures
        out@.filter(|x: T| !x.precedes(&k) && !k.precedes(&x)) == items@.filter(
            |x: T| !x.precedes(&k) && !k.precedes(&x),
        ),
{
    let same = |x: T| !x.precedes(&k) && !k.precedes(&x);
    assert(crate::sorting::tied_with(k) =~= same);
    assert(out@.filter(crate::sorting::tied_with(k)) == items@.filter(
        crate::sorting::tied_with(k),
    ));
}

} // verus!
