//! The order of versions, as a mathematical function, and the laws it obeys.
//!
//! Two versions are compared by their numbers first, with trailing zeros left
//! out, and by their stage only when the numbers agree.

use crate::ansible::version::Stage;
use crate::ansible::version::VersionView;
use vstd::prelude::*;

verus! {

/// `s` without its trailing zeros.
pub open spec fn trim(s: Seq<u8>) -> Seq<u8>
    decreases s.len(),
{
    if s.len() > 0 && s.last() == 0 {
        trim(s.drop_last())
    } else {
        s
    }
}

/// Lexicographic comparison of two sequences of numbers: -1, 0 or 1 as `a`
/// comes before, equals or comes after `b`. A proper prefix comes before the
/// sequence it is a prefix of.
pub open spec fn numbers_order(a: Seq<u8>, b: Seq<u8>) -> int
    decreases a.len(),
{
    if a.len() == 0 {
        if b.len() == 0 {
            0
        } else {
            -1
        }
    } else if b.len() == 0 {
        1
    } else if a[0] < b[0] {
        -1
    } else if a[0] > b[0] {
        1
    } else {
        numbers_order(a.skip(1), b.skip(1))
    }
}

/// The rank of a stage's kind: a final release is above every pre-release,
/// and the pre-releases go release candidate, beta, alpha, dev from the top.
pub open spec fn stage_rank(s: Stage) -> int {
    match s {
        Stage::GA => 4,
        Stage::RC(_) => 3,
        Stage::B(_) => 2,
        Stage::A(_) => 1,
        Stage::Dev(_) => 0,
    }
}

/// The release number within a stage; a final release has none, which counts as 0.
pub open spec fn stage_number(s: Stage) -> int {
    match s {
        Stage::GA => 0,
        Stage::RC(n) => n as int,
        Stage::B(n) => n as int,
        Stage::A(n) => n as int,
        Stage::Dev(n) => n as int,
    }
}

/// Comparison of two stages at equal numbers: by rank, then by release number.
pub open spec fn stage_order(a: Stage, b: Stage) -> int {
    if stage_rank(a) < stage_rank(b) {
        -1
    } else if stage_rank(a) > stage_rank(b) {
        1
    } else if stage_number(a) < stage_number(b) {
        -1
    } else if stage_number(a) > stage_number(b) {
        1
    } else {
        0
    }
}

/// The order of versions: -1, 0 or 1 as `a` is older than, as new as, or newer
/// than `b`.
pub open spec fn version_order(a: VersionView, b: VersionView) -> int {
    let by_numbers = numbers_order(trim(a.numbers), trim(b.numbers));
    if by_numbers != 0 {
        by_numbers
    } else {
        stage_order(a.stage, b.stage)
    }
}

/// `a` is older than `b`.
pub open spec fn older(a: VersionView, b: VersionView) -> bool {
    version_order(a, b) < 0
}

/// `a` and `b` are the same version, whatever zeros trail their numbers.
pub open spec fn same(a: VersionView, b: VersionView) -> bool {
    version_order(a, b) == 0
}

} // verus!

verus! {

/// The number of entries of `v` that are left when its trailing zeros go.
pub fn trimmed_len(v: &Vec<u8>) -> (n: usize)
    ensures
        n <= v.len(),
        v@.take(n as int) == trim(v@),
{
    let mut n: usize = v.len();
    assert(v@.take(n as int) =~= v@);
    while n > 0 && v[n - 1] == 0
        invariant
            n <= v.len(),
            trim(v@) == trim(v@.take(n as int)),
        decreases n,
    {
        assert(v@.take(n as int).drop_last() =~= v@.take(n - 1));
        n = n - 1;
    }
    n
}

/// Compares the numbers of two versions, trailing zeros left out.
pub fn compare_numbers(a: &Vec<u8>, b: &Vec<u8>) -> (r: i8)
    ensures
        r == numbers_order(trim(a@), trim(b@)),
{
    let la: usize = trimmed_len(a);
    let lb: usize = trimmed_len(b);
    let ghost ta = trim(a@);
    let ghost tb = trim(b@);
    let mut i: usize = 0;
    assert(ta.skip(0) =~= ta && tb.skip(0) =~= tb);
    while i < la && i < lb
        invariant
            i <= la <= a.len(),
            i <= lb <= b.len(),
            ta == trim(a@) && ta == a@.take(la as int),
            tb == trim(b@) && tb == b@.take(lb as int),
            numbers_order(ta, tb) == numbers_order(ta.skip(i as int), tb.skip(i as int)),
        decreases la - i,
    {
        assert(ta.skip(i as int)[0] == a[i as int] && tb.skip(i as int)[0] == b[i as int]);
        if a[i] < b[i] {
            return -1;
        }
        if a[i] > b[i] {
            return 1;
        }
        assert(ta.skip(i as int).skip(1) =~= ta.skip(i + 1));
        assert(tb.skip(i as int).skip(1) =~= tb.skip(i + 1));
        i = i + 1;
    }
    if i < lb {
        -1
    } else if i < la {
        1
    } else {
        0
    }
}

} // verus!

verus! {

proof fn lemma_numbers_order_sign(a: Seq<u8>, b: Seq<u8>)
    ensures
        -1 <= numbers_order(a, b) <= 1,
        numbers_order(a, b) == -numbers_order(b, a),
        numbers_order(a, b) == 0 <==> a == b,
    decreases a.len(),
{
    if a.len() > 0 && b.len() > 0 {
        lemma_numbers_order_sign(a.skip(1), b.skip(1));
        if a[0] == b[0] && a.skip(1) == b.skip(1) {
            assert(a =~= seq![a[0]] + a.skip(1));
            assert(b =~= seq![b[0]] + b.skip(1));
        }
    } else if a.len() == 0 && b.len() == 0 {
        assert(a =~= b);
    }
}

proof fn lemma_numbers_order_transitive(a: Seq<u8>, b: Seq<u8>, c: Seq<u8>)
    ensures
        numbers_order(a, b) <= 0 && numbers_order(b, c) <= 0 ==> numbers_order(a, c) <= 0,
        numbers_order(a, b) < 0 && numbers_order(b, c) <= 0 ==> numbers_order(a, c) < 0,
        numbers_order(a, b) <= 0 && numbers_order(b, c) < 0 ==> numbers_order(a, c) < 0,
    decreases a.len(),
{
    if a.len() > 0 && b.len() > 0 && c.len() > 0 {
        lemma_numbers_order_transitive(a.skip(1), b.skip(1), c.skip(1));
    }
}

/// Of two versions exactly one holds: the first is older, the two are the
/// same, or the second is older. Being the same is symmetric.
pub proof fn lemma_order_total(a: VersionView, b: VersionView)
    ensures
        older(a, b) || same(a, b) || older(b, a),
        !(older(a, b) && same(a, b)),
        !(older(b, a) && same(a, b)),
        !(older(a, b) && older(b, a)),
        same(a, b) <==> same(b, a),
        version_order(a, b) == -version_order(b, a),
        -1 <= version_order(a, b) <= 1,
{
    lemma_numbers_order_sign(trim(a.numbers), trim(b.numbers));
}

/// Two versions are the same exactly when their numbers agree once trailing
/// zeros are left out, and their stages are equal.
pub proof fn lemma_same_versions(a: VersionView, b: VersionView)
    ensures
        same(a, b) <==> trim(a.numbers) == trim(b.numbers) && a.stage == b.stage,
{
    lemma_numbers_order_sign(trim(a.numbers), trim(b.numbers));
}

/// The order is transitive, through versions that are the same too.
pub proof fn lemma_order_transitive(a: VersionView, b: VersionView, c: VersionView)
    ensures
        older(a, b) && older(b, c) ==> older(a, c),
        older(a, b) && same(b, c) ==> older(a, c),
        same(a, b) && older(b, c) ==> older(a, c),
        same(a, b) && same(b, c) ==> same(a, c),
{
    lemma_numbers_order_sign(trim(a.numbers), trim(b.numbers));
    lemma_numbers_order_sign(trim(b.numbers), trim(c.numbers));
    lemma_numbers_order_sign(trim(a.numbers), trim(c.numbers));
    lemma_numbers_order_transitive(trim(a.numbers), trim(b.numbers), trim(c.numbers));
}

/// Zeros at the end of the numbers do not change where a version stands.
pub proof fn lemma_trailing_zero_same(a: VersionView)
    ensures
        same(a, VersionView { numbers: a.numbers.push(0), stage: a.stage }),
{
    assert(a.numbers.push(0).drop_last() =~= a.numbers);
    lemma_numbers_order_sign(trim(a.numbers), trim(a.numbers.push(0)));
}

} // verus!
