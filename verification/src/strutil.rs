//! Small verified string and sequence helpers: character-wise equality,
//! decimal rendering of integers, first-match search over a sequence, plus
//! the one trusted call to `String::push`.

use vstd::prelude::*;
use vstd::string::*;

verus! {

/// A vector's deep view is as long as the vector.
pub broadcast proof fn lemma_deep_view_len<T: DeepView>(v: &Vec<T>)
    ensures
        #[trigger] v.deep_view().len() == v@.len(),
{
}

/// Indexing a vector's deep view is the deep view of the element there.
pub broadcast proof fn lemma_deep_view_index<T: DeepView>(v: &Vec<T>, i: int)
    requires
        0 <= i < v@.len(),
    ensures
        #[trigger] v.deep_view()[i] == v@[i].deep_view(),
{
}

/// The least index at or after `i` whose element satisfies the predicate,
/// or the length when none does.
pub open spec fn first_from<A>(s: Seq<A>, pred: spec_fn(A) -> bool, i: int) -> int
    decreases s.len() - i when 0 <= i <= s.len()
{
    if i >= s.len() {
        s.len() as int
    } else if pred(s[i]) {
        i
    } else {
        first_from(s, pred, i + 1)
    }
}

/// The least index whose element satisfies the predicate, or the length
/// when none does.
pub open spec fn first_index<A>(s: Seq<A>, pred: spec_fn(A) -> bool) -> int {
    first_from(s, pred, 0)
}

/// What `first_from` returns: it stays in range, lands on a satisfying
/// element when one exists at or after `i`, and skips no satisfying element.
pub proof fn lemma_first_from<A>(s: Seq<A>, pred: spec_fn(A) -> bool, i: int)
    requires
        0 <= i <= s.len(),
    ensures
        i <= first_from(s, pred, i) <= s.len(),
        first_from(s, pred, i) < s.len() ==> pred(s[first_from(s, pred, i)]),
        forall|j: int| i <= j < first_from(s, pred, i) ==> !pred(s[j]),
        first_from(s, pred, i) == s.len() ==> forall|j: int| i <= j < s.len() ==> !pred(s[j]),
    decreases s.len() - i,
{
    if i < s.len() && !pred(s[i]) {
        lemma_first_from(s, pred, i + 1);
    }
}

/// Filtering a sequence extended by one element keeps the filtered prefix
/// and appends the element exactly when it passes the predicate.
pub proof fn lemma_filter_push<A>(s: Seq<A>, pred: spec_fn(A) -> bool, x: A)
    ensures
        s.push(x).filter(pred) == if pred(x) {
            s.filter(pred).push(x)
        } else {
            s.filter(pred)
        },
{
    reveal(Seq::filter);
    assert(s.push(x).drop_last() =~= s);
    assert(s.push(x).last() == x);
}

/// A sequence with no satisfying element filters to the empty sequence.
pub proof fn lemma_filter_none<A>(s: Seq<A>, pred: spec_fn(A) -> bool)
    requires
        forall|k: int| 0 <= k < s.len() ==> !pred(s[k]),
    ensures
        s.filter(pred) == Seq::<A>::empty(),
    decreases s.len(),
{
    reveal(Seq::filter);
    if s.len() > 0 {
        assert(forall|k: int| 0 <= k < s.len() - 1 ==> s.drop_last()[k] == s[k]);
        lemma_filter_none(s.drop_last(), pred);
    }
}

/// A sequence whose one satisfying element sits at `i` filters to just
/// that element.
pub proof fn lemma_filter_single<A>(s: Seq<A>, pred: spec_fn(A) -> bool, i: int)
    requires
        0 <= i < s.len(),
        pred(s[i]),
        forall|k: int| 0 <= k < s.len() && k != i ==> !pred(s[k]),
    ensures
        s.filter(pred) == seq![s[i]],
    decreases s.len(),
{
    reveal(Seq::filter);
    assert(forall|k: int| 0 <= k < s.len() - 1 ==> s.drop_last()[k] == s[k]);
    if i == s.len() - 1 {
        lemma_filter_none(s.drop_last(), pred);
        assert(s.filter(pred) =~= seq![s[i]]);
    } else {
        lemma_filter_single(s.drop_last(), pred, i);
    }
}

/// A sequence with satisfying elements at two distinct positions filters
/// to at least two elements.
pub proof fn lemma_filter_at_least_two<A>(s: Seq<A>, pred: spec_fn(A) -> bool, i: int, j: int)
    requires
        0 <= i < j < s.len(),
        pred(s[i]),
        pred(s[j]),
    ensures
        s.filter(pred).len() >= 2,
    decreases s.len(),
{
    reveal(Seq::filter);
    assert(forall|k: int| 0 <= k < s.len() - 1 ==> s.drop_last()[k] == s[k]);
    if j == s.len() - 1 {
        s.drop_last().lemma_filter_contains(pred, i);
        assert(s.drop_last().filter(pred).len() >= 1);
        assert(s.filter(pred) == s.drop_last().filter(pred).push(s.last()));
    } else {
        lemma_filter_at_least_two(s.drop_last(), pred, i, j);
    }
}

/// Relies on std's `String::push`: appends exactly the one character.
#[verifier::external_body]
pub fn push_char(s: &mut String, c: char)
    ensures
        final(s)@ == old(s)@.push(c),
{
    s.push(c);
}

/// Character-wise equality of two string slices.
pub fn str_eq(a: &str, b: &str) -> (r: bool)
    ensures
        r == (a@ == b@),
{
    let alen = a.unicode_len();
    let blen = b.unicode_len();
    if alen != blen {
        return false;
    }
    let mut i: usize = 0;
    while i < alen
        invariant
            0 <= i <= alen,
            alen == a@.len(),
            blen == b@.len(),
            alen == blen,
            forall|j: int| 0 <= j < i ==> a@[j] == b@[j],
        decreases alen - i,
    {
        if a.get_char(i) != b.get_char(i) {
            return false;
        }
        i += 1;
    }
    proof {
        assert(a@ =~= b@);
    }
    true
}

/// An element-wise copy of a vector of strings.
pub fn clone_strings(v: &Vec<String>) -> (r: Vec<String>)
    ensures
        r.deep_view() == v.deep_view(),
{
    let n = v.len();
    let mut r: Vec<String> = Vec::new();
    let mut i: usize = 0;
    while i < n
        invariant
            0 <= i <= n,
            n == v@.len(),
            r@.len() == i,
            forall|j: int| 0 <= j < i ==> r@[j] == v@[j],
        decreases n - i,
    {
        r.push(v[i].clone());
        i += 1;
    }
    proof {
        assert(r.deep_view() =~= v.deep_view());
    }
    r
}

/// The character for one decimal digit.
pub open spec fn dec_digit(d: int) -> char {
    if d == 0 {
        '0'
    } else if d == 1 {
        '1'
    } else if d == 2 {
        '2'
    } else if d == 3 {
        '3'
    } else if d == 4 {
        '4'
    } else if d == 5 {
        '5'
    } else if d == 6 {
        '6'
    } else if d == 7 {
        '7'
    } else if d == 8 {
        '8'
    } else {
        '9'
    }
}

/// Decimal rendering of a non-negative integer, most significant digit first.
pub open spec fn dec_of_nat(n: nat) -> Seq<char>
    decreases n,
{
    if n < 10 {
        seq![dec_digit(n as int)]
    } else {
        dec_of_nat(n / 10).push(dec_digit((n % 10) as int))
    }
}

/// Decimal rendering of an integer, with a leading minus sign when negative.
pub open spec fn dec_of_int(i: int) -> Seq<char> {
    if i < 0 {
        seq!['-'] + dec_of_nat((-i) as nat)
    } else {
        dec_of_nat(i as nat)
    }
}

fn digit_char(d: u64) -> (c: char)
    requires
        d < 10,
    ensures
        c == dec_digit(d as int),
{
    match d {
        0 => '0',
        1 => '1',
        2 => '2',
        3 => '3',
        4 => '4',
        5 => '5',
        6 => '6',
        7 => '7',
        8 => '8',
        _ => '9',
    }
}

/// Decimal rendering of a `u64`.
pub fn u64_to_string(n: u64) -> (r: String)
    ensures
        r@ == dec_of_nat(n as nat),
    decreases n,
{
    if n < 10 {
        let mut s = String::new();
        push_char(&mut s, digit_char(n));
        proof {
            assert(s@ =~= dec_of_nat(n as nat));
        }
        s
    } else {
        let mut s = u64_to_string(n / 10);
        push_char(&mut s, digit_char(n % 10));
        s
    }
}

/// Decimal rendering of a `usize`.
pub fn usize_to_string(n: usize) -> (r: String)
    ensures
        r@ == dec_of_nat(n as nat),
{
    u64_to_string(n as u64)
}

/// Decimal rendering of an `i32`, matching how std formats one.
pub fn i32_to_string(i: i32) -> (r: String)
    ensures
        r@ == dec_of_int(i as int),
{
    if i < 0 {
        let mut s = String::new();
        push_char(&mut s, '-');
        let magnitude: u64 = (-(i as i64)) as u64;
        let digits = u64_to_string(magnitude);
        s.append(digits.as_str());
        proof {
            assert(s@ =~= dec_of_int(i as int));
        }
        s
    } else {
        u64_to_string(i as u64)
    }
}

} // verus!
