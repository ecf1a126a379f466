//! Byte counts, and how they add up.
//!
//! A count is an `Option<usize>`: `Some` when the number of bytes fits in a
//! `usize`, `None` when it does not. What a value *may* be charged is a set of
//! numbers rather than one number, because part of it is how much room an
//! allocator happened to hand out.

use vstd::prelude::*;

verus! {

/// How a count of `bytes` is reported.
pub open spec fn charge_of(bytes: nat) -> Option<usize> {
    if bytes <= usize::MAX {
        Some(bytes as usize)
    } else {
        None
    }
}

/// `charge` is how a count of `bytes` is reported.
pub open spec fn reports(charge: Option<usize>, bytes: nat) -> bool {
    charge == charge_of(bytes)
}

/// `charge` reports one of the numbers in `weights`.
pub open spec fn measures(charge: Option<usize>, weights: Set<nat>) -> bool {
    exists|bytes: nat| #[trigger] weights.contains(bytes) && reports(charge, bytes)
}

/// One of the numbers in `weights` is no greater than `bytes`.
pub open spec fn fits_in(weights: Set<nat>, bytes: nat) -> bool {
    exists|part: nat| #[trigger] weights.contains(part) && part <= bytes
}

/// The weights of something that is worth `bytes`, whatever the allocator did.
pub open spec fn exactly(bytes: nat) -> Set<nat> {
    Set::new(|n: nat| n == bytes)
}

/// The sum of a sequence of numbers.
pub open spec fn sum(numbers: Seq<nat>) -> nat
    decreases numbers.len(),
{
    if numbers.len() == 0 {
        0
    } else {
        sum(numbers.drop_last()) + numbers.last()
    }
}

/// `picks` takes one number out of each of `parts`.
pub open spec fn picked(parts: Seq<Set<nat>>, picks: Seq<nat>) -> bool {
    &&& picks.len() == parts.len()
    &&& forall|i: int| 0 <= i < parts.len() ==> #[trigger] parts[i].contains(picks[i])
}

/// What a whole may weigh whose parts may weigh `parts`.
pub open spec fn sum_of(parts: Seq<Set<nat>>) -> Set<nat> {
    Set::new(|n: nat| exists|picks: Seq<nat>| #[trigger] picked(parts, picks) && n == sum(picks))
}

/// Each of `charges` reports the number at its place in `numbers`.
pub open spec fn all_report(charges: Seq<Option<usize>>, numbers: Seq<nat>) -> bool {
    &&& charges.len() == numbers.len()
    &&& forall|i: int| 0 <= i < charges.len() ==> reports(#[trigger] charges[i], numbers[i])
}

/// Each of `charges` measures the weights at its place in `parts`.
pub open spec fn all_measure(charges: Seq<Option<usize>>, parts: Seq<Set<nat>>) -> bool {
    &&& charges.len() == parts.len()
    &&& forall|i: int| 0 <= i < charges.len() ==> measures(#[trigger] charges[i], parts[i])
}

/// `total` is what the charges in `charges` come to.
pub open spec fn is_total(charges: Seq<Option<usize>>, total: Option<usize>) -> bool {
    forall|numbers: Seq<nat>| #[trigger] all_report(charges, numbers) ==> reports(total, sum(numbers))
}

/// `total` is what `own` bytes and the charges in `charges` come to.
pub open spec fn adds_up(own: nat, charges: Seq<Option<usize>>, total: Option<usize>) -> bool {
    forall|numbers: Seq<nat>| #[trigger]
        all_report(charges, numbers) ==> reports(total, own + sum(numbers))
}

/// The sum of two counts. Where either does not fit, the sum does not.
pub open spec fn added(a: Option<usize>, b: Option<usize>) -> Option<usize> {
    match (a, b) {
        (Some(a), Some(b)) if a + b <= usize::MAX => Some((a + b) as usize),
        _ => None,
    }
}

/// Adds two counts.
pub fn plus(a: Option<usize>, b: Option<usize>) -> (r: Option<usize>)
    ensures
        r == added(a, b),
{
    match (a, b) {
        (Some(a), Some(b)) => a.checked_add(b),
        _ => None,
    }
}

/// The bytes of `count` slots of `size` bytes each.
pub fn times(count: usize, size: usize) -> (r: Option<usize>)
    ensures
        reports(r, count as nat * size as nat),
{
    count.checked_mul(size)
}

/// Adds up the counts in `charges`.
pub fn total(charges: &[Option<usize>]) -> (r: Option<usize>)
    ensures
        is_total(charges@, r),
{
    let mut so_far: Option<usize> = Some(0);
    let mut i: usize = 0;
    while i < charges.len()
        invariant
            i <= charges.len(),
            is_total(charges@.take(i as int), so_far),
        decreases charges.len() - i,
    {
        let ghost before = so_far;
        so_far = plus(so_far, charges[i]);
        proof {
            let next = charges@.take(i + 1);
            assert forall|numbers: Seq<nat>| #[trigger] all_report(next, numbers) implies reports(
                so_far,
                sum(numbers),
            ) by {
                assert(next[i as int] == charges@[i as int]);
                assert(reports(charges@[i as int], numbers[i as int]));
                assert forall|j: int| 0 <= j < i implies reports(
                    #[trigger] charges@.take(i as int)[j],
                    numbers.drop_last()[j],
                ) by {
                    assert(next[j] == charges@[j]);
                }
                assert(all_report(charges@.take(i as int), numbers.drop_last()));
                assert(reports(before, sum(numbers.drop_last())));
            }
        }
        i = i + 1;
    }
    assert(charges@.take(i as int) =~= charges@);
    so_far
}

/// The numbers that charges report, each out of the weights that it measures.
pub proof fn lemma_measured_numbers(charges: Seq<Option<usize>>, parts: Seq<Set<nat>>) -> (numbers:
    Seq<nat>)
    requires
        all_measure(charges, parts),
    ensures
        all_report(charges, numbers),
        picked(parts, numbers),
        sum_of(parts).contains(sum(numbers)),
{
    let numbers = Seq::new(
        parts.len(),
        |i: int| choose|bytes: nat| #[trigger] parts[i].contains(bytes) && reports(charges[i], bytes),
    );
    assert forall|i: int| 0 <= i < parts.len() implies #[trigger] parts[i].contains(numbers[i])
        && reports(charges[i], numbers[i]) by {
        assert(measures(charges[i], parts[i]));
    }
    assert(picked(parts, numbers));
    assert(all_report(charges, numbers));
    numbers
}

/// What the parts measure, their total measures of the whole.
pub proof fn lemma_total_measures(
    charges: Seq<Option<usize>>,
    parts: Seq<Set<nat>>,
    total: Option<usize>,
)
    requires
        all_measure(charges, parts),
        is_total(charges, total),
    ensures
        measures(total, sum_of(parts)),
{
    let numbers = lemma_measured_numbers(charges, parts);
    assert(sum_of(parts).contains(sum(numbers)));
}

/// What measures some weights measures any that include them.
pub proof fn lemma_measures_more(charge: Option<usize>, weights: Set<nat>, more: Set<nat>)
    requires
        measures(charge, weights),
        weights.subset_of(more),
    ensures
        measures(charge, more),
{
    let bytes = choose|bytes: nat| #[trigger] weights.contains(bytes) && reports(charge, bytes);
    assert(more.contains(bytes));
}

proof fn lemma_sum_at_least(numbers: Seq<nat>, i: int)
    requires
        0 <= i < numbers.len(),
    ensures
        numbers[i] <= sum(numbers),
    decreases numbers.len(),
{
    if i < numbers.len() - 1 {
        lemma_sum_at_least(numbers.drop_last(), i);
    }
}

/// One more part adds one of its weights.
pub proof fn lemma_sum_of_push(parts: Seq<Set<nat>>, last: Set<nat>, n: nat)
    ensures
        sum_of(parts.push(last)).contains(n) <==> exists|m: nat, k: nat|
            #[trigger] sum_of(parts).contains(m) && #[trigger] last.contains(k) && n == m + k,
{
    let more = parts.push(last);
    if sum_of(more).contains(n) {
        let picks = choose|picks: Seq<nat>| #[trigger] picked(more, picks) && n == sum(picks);
        assert(more[parts.len() as int].contains(picks[parts.len() as int]));
        assert forall|i: int| 0 <= i < parts.len() implies #[trigger] parts[i].contains(
            picks.drop_last()[i],
        ) by {
            assert(more[i].contains(picks[i]));
        }
        assert(picked(parts, picks.drop_last()));
        assert(sum_of(parts).contains(sum(picks.drop_last())) && last.contains(picks.last()));
    }
    if exists|m: nat, k: nat|
        #[trigger] sum_of(parts).contains(m) && #[trigger] last.contains(k) && n == m + k {
        let (m, k) = choose|m: nat, k: nat|
            #[trigger] sum_of(parts).contains(m) && #[trigger] last.contains(k) && n == m + k;
        let picks = choose|picks: Seq<nat>| #[trigger] picked(parts, picks) && m == sum(picks);
        let all = picks.push(k);
        assert forall|i: int| 0 <= i < more.len() implies #[trigger] more[i].contains(all[i]) by {
            if i < parts.len() {
                assert(parts[i].contains(picks[i]));
            }
        }
        assert(picked(more, all));
        assert(all.drop_last() =~= picks);
    }
}

/// No parts weigh nothing.
pub proof fn lemma_sum_of_none()
    ensures
        sum_of(Seq::empty()) == exactly(0),
{
    law_exact_parts_make_an_exact_whole(Seq::empty());
    assert(Seq::<nat>::empty().map_values(|n: nat| exactly(n)) =~= Seq::<Set<nat>>::empty());
}

/// Two parts weigh what the one weighs and what the other weighs.
pub proof fn law_two_parts_weigh_both(a: Set<nat>, b: Set<nat>, n: nat)
    ensures
        sum_of(seq![a, b]).contains(n) <==> exists|x: nat, y: nat|
            #[trigger] a.contains(x) && #[trigger] b.contains(y) && n == x + y,
{
    let empty = Seq::<Set<nat>>::empty();
    lemma_sum_of_none();
    assert(seq![a] =~= empty.push(a));
    assert(seq![a, b] =~= seq![a].push(b));
    lemma_sum_of_push(seq![a], b, n);
    let one = sum_of(seq![a]);
    assert forall|m: nat| #[trigger] one.contains(m) <==> a.contains(m) by {
        lemma_sum_of_push(empty, a, m);
        if a.contains(m) {
            assert(sum_of(empty).contains(0) && a.contains(m) && m == 0 + m);
        }
    }
    if exists|x: nat, y: nat| #[trigger] a.contains(x) && #[trigger] b.contains(y) && n == x + y {
        let (x, y) = choose|x: nat, y: nat| #[trigger]
            a.contains(x) && #[trigger] b.contains(y) && n == x + y;
        assert(sum_of(seq![a]).contains(x) && b.contains(y));
    }
}

/// The counts of a whole of two parts are exactly the sums of a count of the one
/// and a count of the other.
pub proof fn law_two_counts_add_up(a: Set<nat>, b: Set<nat>, charge: Option<usize>)
    ensures
        measures(charge, sum_of(seq![a, b])) <==> exists|x: Option<usize>, y: Option<usize>|
            #[trigger] measures(x, a) && #[trigger] measures(y, b) && charge == added(x, y),
{
    let whole = sum_of(seq![a, b]);
    if measures(charge, whole) {
        let n = choose|n: nat| #[trigger] whole.contains(n) && reports(charge, n);
        law_two_parts_weigh_both(a, b, n);
        let (x, y) = choose|x: nat, y: nat| #[trigger]
            a.contains(x) && #[trigger] b.contains(y) && n == x + y;
        assert(measures(charge_of(x), a) && measures(charge_of(y), b));
    }
    if exists|x: Option<usize>, y: Option<usize>|
        #[trigger] measures(x, a) && #[trigger] measures(y, b) && charge == added(x, y) {
        let (x, y) = choose|x: Option<usize>, y: Option<usize>| #[trigger]
            measures(x, a) && #[trigger] measures(y, b) && charge == added(x, y);
        let m = choose|m: nat| #[trigger] a.contains(m) && reports(x, m);
        let k = choose|k: nat| #[trigger] b.contains(k) && reports(y, k);
        law_two_parts_weigh_both(a, b, m + k);
        assert(whole.contains(m + k));
    }
}

/// A boxed part adds its box and what is in it to what the whole weighs without
/// it.
pub proof fn law_a_box_comes_on_top(parts: Seq<Set<nat>>, size: nat, owned: Set<nat>)
    ensures
        sum_of(parts.push(exactly(0))) == sum_of(parts),
        sum_of(parts.push(sum_of(seq![exactly(size), owned]))) == sum_of(
            seq![sum_of(parts), sum_of(seq![exactly(size), owned])],
        ),
{
    let boxed = sum_of(seq![exactly(size), owned]);
    let whole = sum_of(seq![sum_of(parts), boxed]);
    assert forall|n: nat| #[trigger]
        sum_of(parts.push(exactly(0))).contains(n) <==> sum_of(parts).contains(n) by {
        lemma_sum_of_push(parts, exactly(0), n);
        if sum_of(parts).contains(n) {
            assert(exactly(0).contains(0) && n == n + 0);
        }
    }
    assert(sum_of(parts.push(exactly(0))) =~= sum_of(parts));
    assert forall|n: nat| #[trigger]
        sum_of(parts.push(boxed)).contains(n) <==> whole.contains(n) by {
        lemma_sum_of_push(parts, boxed, n);
        law_two_parts_weigh_both(sum_of(parts), boxed, n);
    }
    assert(sum_of(parts.push(boxed)) =~= whole);
}

/// A whole never weighs less than one of its parts: behind each weight of the
/// whole stands a weight of the part that is no greater.
pub proof fn law_a_part_weighs_no_more(parts: Seq<Set<nat>>, i: int, whole: nat) -> (part: nat)
    requires
        0 <= i < parts.len(),
        sum_of(parts).contains(whole),
    ensures
        parts[i].contains(part),
        part <= whole,
{
    let picks = choose|picks: Seq<nat>| #[trigger] picked(parts, picks) && whole == sum(picks);
    lemma_sum_at_least(picks, i);
    assert(parts[i].contains(picks[i]));
    picks[i]
}

/// Where every part has one weight, the whole has one weight, their sum.
pub proof fn law_exact_parts_make_an_exact_whole(numbers: Seq<nat>)
    ensures
        sum_of(numbers.map_values(|n: nat| exactly(n))) == exactly(sum(numbers)),
{
    let parts = numbers.map_values(|n: nat| exactly(n));
    assert forall|n: nat| sum_of(parts).contains(n) == exactly(sum(numbers)).contains(n) by {
        if sum_of(parts).contains(n) {
            let picks = choose|picks: Seq<nat>| #[trigger] picked(parts, picks) && n == sum(picks);
            assert forall|i: int| 0 <= i < picks.len() implies picks[i] == numbers[i] by {
                assert(parts[i].contains(picks[i]));
            }
            assert(picks =~= numbers);
        }
        if n == sum(numbers) {
            assert(picked(parts, numbers));
        }
    }
    assert(sum_of(parts) =~= exactly(sum(numbers)));
}

/// A count pins the number it reports, as far as a `usize` reaches.
pub proof fn law_a_count_reports_one_number(charge: Option<usize>, m: nat, n: nat)
    requires
        reports(charge, m),
        reports(charge, n),
    ensures
        charge is Some ==> m == n,
        charge is None ==> m > usize::MAX && n > usize::MAX,
{
}

/// A count is `Some` of the number itself where that fits in a `usize`, and
/// `None` exactly where it does not.
pub proof fn law_a_count_is_the_number_or_nothing(charge: Option<usize>, bytes: nat)
    ensures
        reports(charge, bytes) <==> match charge {
            Some(n) => n as nat == bytes,
            None => bytes > usize::MAX,
        },
        reports(charge_of(bytes), bytes),
{
}

/// A count measures weights exactly where it is one of them, or where one of
/// them does not fit and it says so.
pub proof fn law_a_measure_is_one_of_the_weights(charge: Option<usize>, weights: Set<nat>)
    ensures
        measures(charge, weights) <==> match charge {
            Some(n) => weights.contains(n as nat),
            None => exists|bytes: nat| #[trigger] weights.contains(bytes) && bytes > usize::MAX,
        },
{
    if let Some(n) = charge {
        if weights.contains(n as nat) {
            assert(reports(charge, n as nat));
        }
    }
}

/// Two counts add up to the sum of their numbers, and to nothing where either is
/// missing or the sum does not fit.
pub proof fn law_counts_add_like_numbers(a: Option<usize>, b: Option<usize>, m: nat, n: nat)
    ensures
        added(a, b) == added(b, a),
        a is None ==> added(a, b) is None,
        added(charge_of(m), charge_of(n)) == charge_of(m + n),
        added(a, Some(0usize)) == a,
{
}

/// What weighs `bytes` exactly weighs that and nothing else.
pub proof fn law_an_exact_weight_is_one_number(bytes: nat, n: nat)
    ensures
        exactly(bytes).contains(n) <==> n == bytes,
{
}

/// A sum grows by each number that joins it, at either end, and no numbers sum
/// to nothing.
pub proof fn law_a_sum_grows_by_each_number(numbers: Seq<nat>, more: Seq<nat>, n: nat)
    ensures
        sum(Seq::empty()) == 0,
        sum(numbers.push(n)) == sum(numbers) + n,
        sum(numbers + more) == sum(numbers) + sum(more),
        sum(numbers) == numbers.fold_left(0nat, |so_far: nat, number: nat| so_far + number),
    decreases more.len() + numbers.len(),
{
    assert(numbers.push(n).drop_last() =~= numbers);
    if more.len() > 0 {
        assert((numbers + more).drop_last() =~= numbers + more.drop_last());
        law_a_sum_grows_by_each_number(numbers, more.drop_last(), n);
    } else {
        assert(numbers + more =~= numbers);
        if numbers.len() > 0 {
            law_a_sum_grows_by_each_number(numbers.drop_last(), more, n);
        }
    }
}

/// A whole may weigh exactly what comes of taking one weight of each part, no
/// part left out and none taken twice.
pub proof fn law_a_whole_takes_one_weight_of_each_part(parts: Seq<Set<nat>>, n: nat)
    ensures
        sum_of(parts).contains(n) <==> exists|picks: Seq<nat>|
            {
                &&& #[trigger] picks.len() == parts.len()
                &&& forall|i: int| 0 <= i < parts.len() ==> #[trigger] parts[i].contains(picks[i])
                &&& n == picks.fold_left(0nat, |so_far: nat, number: nat| so_far + number)
            },
{
    let whole = |so_far: nat, number: nat| so_far + number;
    assert forall|picks: Seq<nat>| #[trigger] sum(picks) == picks.fold_left(0nat, whole) by {
        law_a_sum_grows_by_each_number(picks, Seq::empty(), 0);
    }
    if sum_of(parts).contains(n) {
        let picks = choose|picks: Seq<nat>| #[trigger] picked(parts, picks) && n == sum(picks);
        assert(picks.len() == parts.len());
        assert(sum(picks) == picks.fold_left(0nat, whole));
    }
    if exists|picks: Seq<nat>|
        {
            &&& #[trigger] picks.len() == parts.len()
            &&& forall|i: int| 0 <= i < parts.len() ==> #[trigger] parts[i].contains(picks[i])
            &&& n == picks.fold_left(0nat, whole)
        } {
        let picks = choose|picks: Seq<nat>|
            {
                &&& #[trigger] picks.len() == parts.len()
                &&& forall|i: int| 0 <= i < parts.len() ==> #[trigger] parts[i].contains(picks[i])
                &&& n == picks.fold_left(0nat, whole)
            };
        assert(picked(parts, picks));
        assert(sum(picks) == picks.fold_left(0nat, whole));
    }
}

/// A total is the sum of the counts it is made of: of all of them where all fit,
/// and nothing where one does not.
pub proof fn law_a_total_is_the_sum_of_its_counts(
    charges: Seq<Option<usize>>,
    own: nat,
    total: Option<usize>,
)
    requires
        adds_up(own, charges, total) || own == 0 && is_total(charges, total),
    ensures
        (forall|i: int| 0 <= i < charges.len() ==> (#[trigger] charges[i]) is Some) ==> reports(
            total,
            own + sum(charges.map_values(|charge: Option<usize>| charge->0 as nat)),
        ),
        (exists|i: int| 0 <= i < charges.len() && (#[trigger] charges[i]) is None) ==> total is None,
{
    let numbers = Seq::new(
        charges.len(),
        |i: int|
            if charges[i] is Some {
                charges[i]->0 as nat
            } else {
                (usize::MAX + 1) as nat
            },
    );
    assert(all_report(charges, numbers));
    if forall|i: int| 0 <= i < charges.len() ==> (#[trigger] charges[i]) is Some {
        assert(numbers =~= charges.map_values(|charge: Option<usize>| charge->0 as nat));
    }
    if exists|i: int| 0 <= i < charges.len() && (#[trigger] charges[i]) is None {
        let i = choose|i: int| 0 <= i < charges.len() && (#[trigger] charges[i]) is None;
        lemma_sum_at_least(numbers, i);
    }
}

/// Numbers that are no greater, one by one, sum to no more.
pub proof fn lemma_smaller_numbers_sum_to_less(smaller: Seq<nat>, larger: Seq<nat>)
    requires
        smaller.len() == larger.len(),
        forall|i: int| 0 <= i < smaller.len() ==> #[trigger] smaller[i] <= larger[i],
    ensures
        sum(smaller) <= sum(larger),
    decreases smaller.len(),
{
    if smaller.len() > 0 {
        assert forall|i: int| 0 <= i < smaller.drop_last().len() implies #[trigger] smaller.drop_last()[i]
            <= larger.drop_last()[i] by {
            assert(smaller[i] <= larger[i]);
        }
        lemma_smaller_numbers_sum_to_less(smaller.drop_last(), larger.drop_last());
        assert(smaller[smaller.len() - 1] <= larger[larger.len() - 1]);
    }
}

/// A whole of one open part and known bytes weighs a weight of the part and
/// those bytes.
pub proof fn lemma_known_bytes_come_on_top(open: Set<nat>, bytes: nat, n: nat)
    ensures
        sum_of(seq![open, exactly(bytes)]).contains(n) <==> exists|part: nat| #[trigger]
            open.contains(part) && n == part + bytes,
{
    law_two_parts_weigh_both(open, exactly(bytes), n);
    if exists|part: nat| #[trigger] open.contains(part) && n == part + bytes {
        let part = choose|part: nat| #[trigger] open.contains(part) && n == part + bytes;
        assert(open.contains(part) && exactly(bytes).contains(bytes));
    }
}

/// The first numbers sum to what they sum to without the last of them, and that
/// one; none sum to nothing, and all of them to the whole sum.
pub proof fn lemma_sum_step(numbers: Seq<nat>, k: int)
    requires
        0 <= k < numbers.len(),
    ensures
        sum(numbers.take(k + 1)) == sum(numbers.take(k)) + numbers[k],
        sum(numbers.take(0)) == 0,
        k + 1 == numbers.len() ==> numbers.take(k + 1) == numbers,
{
    assert(numbers.take(k + 1).drop_last() =~= numbers.take(k));
    if k + 1 == numbers.len() {
        assert(numbers.take(k + 1) =~= numbers);
    }
}

} // verus!
