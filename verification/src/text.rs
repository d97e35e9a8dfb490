//! Character-level text handling: turning a string into its characters
//! and removing leading and trailing whitespace, as message texts require.
use vstd::prelude::*;

verus! {

use vstd::std_specs::iter::IteratorSpec;

broadcast use vstd::string::next_postcondition;

/// Whether `c` is a whitespace character.
///
/// The meaning is fixed by `char::is_whitespace`; the library states
/// nothing about which characters satisfy it.
pub uninterp spec fn is_white(c: char) -> bool;

/// Relies on char::is_whitespace: whether `c` has the Unicode
/// `White_Space` property, a function of the character alone.
#[verifier::external_body]
pub fn char_is_whitespace(c: char) -> (r: bool)
    ensures
        r == is_white(c),
{
    c.is_whitespace()
}

/// The characters of `s`, in order.
pub fn chars_vec(s: &str) -> (r: Vec<char>)
    ensures
        r@ == s@,
{
    let mut it = s.chars();
    let mut out: Vec<char> = Vec::new();
    proof {
        vstd::string::axiom_spec_iter(s);
    }
    loop
        invariant
            out@ + it.remaining() == s@,
            out@.len() <= s@.len(),
        ensures
            out@ =~= s@,
        decreases s@.len() - out@.len(),
    {
        match it.next() {
            Some(c) => {
                out.push(c);
            }
            None => {
                assert(it.remaining().len() == 0);
                break;
            }
        }
    }
    out
}

/// `s` without its leading whitespace.
pub open spec fn trim_front(s: Seq<char>) -> Seq<char>
    decreases s.len(),
{
    if s.len() > 0 && is_white(s[0]) {
        trim_front(s.drop_first())
    } else {
        s
    }
}

/// `s` without its trailing whitespace.
pub open spec fn trim_back(s: Seq<char>) -> Seq<char>
    decreases s.len(),
{
    if s.len() > 0 && is_white(s.last()) {
        trim_back(s.drop_last())
    } else {
        s
    }
}

/// `s` without leading and trailing whitespace: what a message text
/// is reduced to before it is stored.
pub open spec fn trim_of(s: Seq<char>) -> Seq<char> {
    trim_back(trim_front(s))
}

proof fn lemma_trim_front_skip(s: Seq<char>, lo: int)
    requires
        0 <= lo <= s.len(),
        forall|k: int| 0 <= k < lo ==> is_white(s[k]),
        lo == s.len() || !is_white(s[lo]),
    ensures
        trim_front(s) == s.subrange(lo, s.len() as int),
    decreases lo,
{
    if lo == 0 {
        assert(s.subrange(0, s.len() as int) =~= s);
    } else {
        let t = s.drop_first();
        assert(forall|k: int| 0 <= k < lo - 1 ==> is_white(#[trigger] t[k]));
        lemma_trim_front_skip(t, lo - 1);
        assert(t.subrange(lo - 1, t.len() as int) =~= s.subrange(lo, s.len() as int));
    }
}

proof fn lemma_trim_back_skip(s: Seq<char>, hi: int)
    requires
        0 <= hi <= s.len(),
        forall|k: int| hi <= k < s.len() ==> is_white(s[k]),
        hi == 0 || !is_white(s[hi - 1]),
    ensures
        trim_back(s) == s.subrange(0, hi),
    decreases s.len() - hi,
{
    if hi == s.len() {
        assert(s.subrange(0, s.len() as int) =~= s);
    } else {
        let t = s.drop_last();
        assert(forall|k: int| hi <= k < t.len() ==> is_white(#[trigger] t[k]));
        lemma_trim_back_skip(t, hi);
        assert(t.subrange(0, hi) =~= s.subrange(0, hi));
    }
}

/// The characters of `v` with leading and trailing whitespace removed.
pub fn trim_chars(v: &Vec<char>) -> (r: Vec<char>)
    ensures
        r@ == trim_of(v@),
{
    let mut lo: usize = 0;
    while lo < v.len() && char_is_whitespace(v[lo])
        invariant
            lo <= v.len(),
            forall|k: int| 0 <= k < lo ==> is_white(v@[k]),
        decreases v.len() - lo,
    {
        lo += 1;
    }
    let mut hi: usize = v.len();
    while hi > lo && char_is_whitespace(v[hi - 1])
        invariant
            lo <= hi <= v.len(),
            forall|k: int| hi <= k < v@.len() ==> is_white(v@[k]),
        decreases hi,
    {
        hi -= 1;
    }
    let mut out: Vec<char> = Vec::new();
    let mut i: usize = lo;
    while i < hi
        invariant
            lo <= i <= hi <= v.len(),
            out@ =~= v@.subrange(lo as int, i as int),
        decreases hi - i,
    {
        out.push(v[i]);
        assert(out@ =~= v@.subrange(lo as int, i + 1 as int));
        i += 1;
    }
    proof {
        lemma_trim_front_skip(v@, lo as int);
        let t = v@.subrange(lo as int, v@.len() as int);
        assert(forall|k: int|
            hi - lo <= k < t.len() ==> is_white(#[trigger] t[k]) == is_white(v@[k + lo]));
        lemma_trim_back_skip(t, hi - lo);
        assert(t.subrange(0, hi - lo) =~= v@.subrange(lo as int, hi as int));
        assert(out@ =~= v@.subrange(lo as int, hi as int));
    }
    out
}

/// The characters of `s` with leading and trailing whitespace removed.
pub fn trim_str(s: &str) -> (r: Vec<char>)
    ensures
        r@ == trim_of(s@),
{
    let cs = chars_vec(s);
    trim_chars(&cs)
}

/// Copies a vector of plain values.
pub fn dup_vals<T: Copy>(v: &Vec<T>) -> (r: Vec<T>)
    ensures
        r@ == v@,
{
    let mut out: Vec<T> = Vec::new();
    let mut i: usize = 0;
    while i < v.len()
        invariant
            i <= v.len(),
            out@ =~= v@.subrange(0, i as int),
        decreases v.len() - i,
    {
        out.push(v[i]);
        assert(out@ =~= v@.subrange(0, i + 1 as int));
        i += 1;
    }
    assert(out@ =~= v@);
    out
}

/// Whether the value `x` occurs in `v`.
pub fn contains_u64(v: &Vec<u64>, x: u64) -> (r: bool)
    ensures
        r == v@.contains(x),
{
    let mut i: usize = 0;
    while i < v.len()
        invariant
            i <= v.len(),
            forall|k: int| 0 <= k < i ==> v@[k] != x,
        decreases v.len() - i,
    {
        if v[i] == x {
            return true;
        }
        i += 1;
    }
    false
}

/// Whether the value `x` occurs in `v`.
pub fn contains_u32(v: &Vec<u32>, x: u32) -> (r: bool)
    ensures
        r == v@.contains(x),
{
    let mut i: usize = 0;
    while i < v.len()
        invariant
            i <= v.len(),
            forall|k: int| 0 <= k < i ==> v@[k] != x,
        decreases v.len() - i,
    {
        if v[i] == x {
            return true;
        }
        i += 1;
    }
    false
}

/// `s` without every occurrence of `x`, order otherwise kept: how a
/// connection identity is unbound from a binding set.
pub open spec fn without_id(s: Seq<u64>, x: u64) -> Seq<u64> {
    s.filter(|y: u64| y != x)
}

/// Membership in a sequence after one element value is removed.
pub proof fn lemma_without_id(v: Seq<u64>, x: u64, y: u64)
    ensures
        without_id(v, x).contains(y) <==> (v.contains(y) && y != x),
    decreases v.len(),
{
    reveal(Seq::filter);
    if v.len() == 0 {
    } else {
        let d = v.drop_last();
        lemma_without_id(d, x, y);
        let f = without_id(v, x);
        let fd = without_id(d, x);
        lemma_push_contains(fd, v.last(), y);
        lemma_push_contains(d, v.last(), y);
        assert(d.push(v.last()) =~= v);
        if v.last() != x {
            assert(f == fd.push(v.last()));
        } else {
            assert(f == fd);
        }
    }
}

/// Membership in a sequence after a push.
pub proof fn lemma_push_contains(v: Seq<u64>, e: u64, y: u64)
    ensures
        v.push(e).contains(y) <==> (v.contains(y) || y == e),
{
    let p = v.push(e);
    if p.contains(y) {
        let i = choose|i: int| 0 <= i < p.len() && p[i] == y;
        if i < v.len() {
            assert(v[i] == y);
        }
    }
    if v.contains(y) {
        let i = choose|i: int| 0 <= i < v.len() && v[i] == y;
        assert(p[i] == y);
    }
    if y == e {
        assert(p[v.len() as int] == y);
    }
}

/// `v` without every occurrence of `x`, order otherwise kept.
pub fn remove_u64(v: &Vec<u64>, x: u64) -> (r: Vec<u64>)
    ensures
        r@ == without_id(v@, x),
{
    let mut out: Vec<u64> = Vec::new();
    let mut i: usize = 0;
    while i < v.len()
        invariant
            i <= v.len(),
            out@ =~= without_id(v@.subrange(0, i as int), x),
        decreases v.len() - i,
    {
        proof {
            let pre = v@.subrange(0, i as int);
            assert(v@.subrange(0, i + 1 as int).drop_last() =~= pre);
            reveal_with_fuel(Seq::filter, 2);
        }
        if v[i] != x {
            out.push(v[i]);
        }
        i += 1;
    }
    assert(v@.subrange(0, v@.len() as int) =~= v@);
    out
}

/// Whether two character sequences are equal.
pub fn chars_eq(a: &Vec<char>, b: &Vec<char>) -> (r: bool)
    ensures
        r == (a@ == b@),
{
    if a.len() != b.len() {
        return false;
    }
    let mut i: usize = 0;
    while i < a.len()
        invariant
            a@.len() == b@.len(),
            i <= a.len(),
            forall|k: int| 0 <= k < i ==> a@[k] == b@[k],
        decreases a.len() - i,
    {
        if a[i] != b[i] {
            return false;
        }
        i += 1;
    }
    proof {
        assert(a@ =~= b@);
    }
    true
}

} // verus!
