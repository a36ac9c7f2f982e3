//! Planning how to bring a GPU buffer up to date with new contents while
//! copying as little as possible.
//!
//! The buffer holds `buffer_len` elements of `element_size` bytes. Given
//! which of the first elements changed, the plan lists the ranges of elements
//! to copy, each starting and ending on the byte alignment that copies need,
//! or asks for the buffer to be rebuilt from scratch.

use vstd::prelude::*;

verus! {

/// How many unchanged elements a copy may carry along before a run of
/// changes is cut off.
pub const MERGE_GAP: usize = 16;

/// Where the scan of a run of changes that started at `start` stops, and the
/// last changed element it saw, scanning on from `index` with `last` the last
/// change so far. The scan stops at the end, or at an unchanged element once
/// the changes since `start` span at least [`MERGE_GAP`] elements.
pub open spec fn run_end(changed: Seq<bool>, start: int, index: int, last: int) -> (int, int)
    decreases changed.len() - index,
{
    if index >= changed.len() {
        (index, last)
    } else if !changed[index] {
        if last - start >= MERGE_GAP {
            (index, last)
        } else {
            run_end(changed, start, index + 1, last)
        }
    } else {
        run_end(changed, start, index + 1, index)
    }
}

/// The copy range `start..=last` widened to the alignment: the start moves
/// back one element and the end forward one element where that aligns them;
/// `None` where no such move aligns the range.
pub open spec fn aligned_range(start: int, last: int, element_size: int, alignment: int, buffer_len: int) -> Option<
    (int, int),
> {
    let s = if (element_size * start) % alignment != 0 {
        if start > 0 && (element_size * (start - 1)) % alignment == 0 {
            Some(start - 1)
        } else {
            None
        }
    } else {
        Some(start)
    };
    match s {
        None => None,
        Some(s) => if (element_size * (last + 1 - s)) % alignment != 0 {
            if last + 1 < buffer_len && (element_size * (last + 2 - s)) % alignment == 0 {
                Some((s, last + 1))
            } else {
                None
            }
        } else {
            Some((s, last))
        },
    }
}

/// The copies planned from element `index` on, and whether a range could not
/// be aligned (which ends the planning); `None` where planning panics
/// because a widened range reaches past the new contents.
pub open spec fn planned_copies(
    changed: Seq<bool>,
    index: int,
    element_size: int,
    alignment: int,
    buffer_len: int,
) -> Option<(Seq<(usize, usize)>, bool)>
    decreases changed.len() + 1 - index,
{
    if index >= changed.len() || index < 0 {
        Some((Seq::empty(), false))
    } else if !changed[index] {
        planned_copies(changed, index + 1, element_size, alignment, buffer_len)
    } else {
        proof {
            lemma_run_end_progress(changed, index, index, index);
        }
        let (stop, last) = run_end(changed, index, index, index);
        match aligned_range(index, last, element_size, alignment, buffer_len) {
            None => Some((Seq::empty(), true)),
            Some((s, l)) => if l >= changed.len() {
                None
            } else {
                match planned_copies(changed, stop + 1, element_size, alignment, buffer_len) {
                    None => None,
                    Some((rest, unaligned)) => Some((seq![(s as usize, l as usize)] + rest, unaligned)),
                }
            },
        }
    }
}

/// The scan of a run never stops before where it started.
pub proof fn lemma_run_end_progress(changed: Seq<bool>, start: int, index: int, last: int)
    ensures
        run_end(changed, start, index, last).0 >= index,
        index <= changed.len() ==> run_end(changed, start, index, last).0 <= changed.len(),
    decreases changed.len() - index,
{
    if index < changed.len() {
        lemma_run_end_progress(changed, start, index + 1, last);
        lemma_run_end_progress(changed, start, index + 1, index);
    }
}

/// The plan for updating a buffer.
#[derive(Debug)]
pub struct BufferUpdatePlan {
    /// The ranges `first..=last` of elements to copy, in order.
    pub copies: Vec<(usize, usize)>,
    /// Whether the buffer must then be rebuilt from the new contents.
    pub rebuild: bool,
}

/// The plan for `changed` (which of the new contents differ from the buffer)
/// in a buffer of `buffer_len` elements, or `None` where planning panics.
pub open spec fn update_plan(changed: Seq<bool>, element_size: int, alignment: int, buffer_len: int) -> Option<
    (Seq<(usize, usize)>, bool),
> {
    if changed.len() > buffer_len {
        Some((Seq::empty(), true))
    } else {
        match planned_copies(changed, 0, element_size, alignment, buffer_len) {
            None => None,
            Some((copies, unaligned)) => Some((copies, unaligned)),
        }
    }
}

proof fn lemma_run_end(changed: Seq<bool>, start: int, index: int, last: int)
    requires
        0 <= start <= last < index <= changed.len(),
        changed[last],
        forall|j: int| last < j < index ==> !changed[j],
    ensures
        ({
            let (stop, l) = run_end(changed, start, index, last);
            &&& index <= stop <= changed.len()
            &&& last <= l < stop
            &&& changed[l]
            &&& forall|j: int| l < j < stop ==> !changed[j]
            &&& stop < changed.len() ==> !changed[stop]
        }),
    decreases changed.len() - index,
{
    if index < changed.len() {
        if !changed[index] {
            if last - start < MERGE_GAP {
                lemma_run_end(changed, start, index + 1, last);
            }
        } else {
            lemma_run_end(changed, start, index + 1, index);
        }
    }
}

/// Scans a run of changes that starts at `start`, returning where the scan
/// stops and the last change it saw.
fn scan_run(changed: &Vec<bool>, start: usize) -> (r: (usize, usize))
    requires
        start < changed@.len(),
        changed@[start as int],
    ensures
        r.0 as int == run_end(changed@, start as int, start as int, start as int).0,
        r.1 as int == run_end(changed@, start as int, start as int, start as int).1,
        start < r.0 <= changed@.len(),
        start <= r.1 < r.0,
{
    let len = changed.len();
    let mut index = start;
    let mut last_changed = start;
    proof {
        lemma_run_end(changed@, start as int, start as int + 1, start as int);
    }
    assert(run_end(changed@, start as int, start as int, start as int) == run_end(
        changed@,
        start as int,
        start as int + 1,
        start as int,
    ));
    while index < len
        invariant_except_break
            run_end(changed@, start as int, start as int, start as int) == run_end(
                changed@,
                start as int,
                index as int,
                last_changed as int,
            ),
        invariant
            len == changed@.len(),
            start <= last_changed <= index,
            last_changed < len,
            start < len,
            index == start ==> last_changed == start,
        ensures
            run_end(changed@, start as int, start as int, start as int) == (index as int, last_changed as int),
        decreases len - index,
    {
        if !changed[index] {
            if last_changed - start >= MERGE_GAP {
                break;
            }
        } else {
            last_changed = index;
        }
        index = index + 1;
    }
    proof {
        lemma_run_end(changed@, start as int, start as int + 1, start as int);
    }
    (index, last_changed)
}

/// Plans how to bring a buffer of `buffer_len` elements of `element_size`
/// bytes up to date with new contents, given which of the new elements
/// differ from the buffer (`changed`, one flag per new element). Copies must
/// start and have a length that are multiples of `alignment` bytes.
///
/// When the new contents fit, each run of changes becomes a copy range;
/// runs separated by fewer than [`MERGE_GAP`] unchanged elements are copied
/// together. A range that does not align is widened by one element at either
/// end; where that does not align it, planning stops and the buffer is
/// rebuilt. New contents longer than the buffer always rebuild it.
///
/// Where the new contents are shorter than the buffer, widening can carry a
/// range one element past their end: then the plan holds such a range, which
/// cannot be copied.
pub fn plan_update(changed: &Vec<bool>, element_size: usize, alignment: u64, buffer_len: usize) -> (r:
    BufferUpdatePlan)
    requires
        alignment > 0,
        element_size * (buffer_len + 1) <= usize::MAX,
        changed@.len() < usize::MAX,
    ensures
        update_plan(changed@, element_size as int, alignment as int, buffer_len as int) matches Some(plan)
            ==> plan == (r.copies@, r.rebuild),
        update_plan(changed@, element_size as int, alignment as int, buffer_len as int) is None ==> exists|k: int|
            0 <= k < r.copies@.len() && (#[trigger] r.copies@[k]).1 >= changed@.len(),
{
    let len = changed.len();
    let mut copies: Vec<(usize, usize)> = Vec::new();
    if len > buffer_len {
        return BufferUpdatePlan { copies, rebuild: true };
    }
    let ghost es = element_size as int;
    let ghost al = alignment as int;
    let ghost bl = buffer_len as int;
    let mut index: usize = 0;
    let mut cant_align = false;
    while index < len
        invariant_except_break
            !cant_align,
            planned_copies(changed@, 0, es, al, bl) matches Some((all, unaligned)) ==> {
                &&& planned_copies(changed@, index as int, es, al, bl) matches Some((rest, u)) && all
                    == copies@ + rest && u == unaligned
            },
            planned_copies(changed@, 0, es, al, bl) is None ==> (planned_copies(changed@, index as int, es, al, bl)
                is None || exists|k: int| 0 <= k < copies@.len() && (#[trigger] copies@[k]).1 >= len),
        invariant
            len == changed@.len(),
            len < usize::MAX,
            len <= buffer_len,
            index <= len + 1,
            alignment > 0,
            es == element_size,
            al == alignment,
            bl == buffer_len,
            element_size * (buffer_len + 1) <= usize::MAX,
        ensures
            planned_copies(changed@, 0, es, al, bl) matches Some(plan) ==> plan == (copies@, cant_align),
            planned_copies(changed@, 0, es, al, bl) is None ==> exists|k: int|
                0 <= k < copies@.len() && (#[trigger] copies@[k]).1 >= len,
        decreases len + 1 - index,
    {
        if changed[index] {
            let (stop, last) = scan_run(changed, index);
            let ghost rest = planned_copies(changed@, index as int, es, al, bl);
            let mut start_index = index;
            let mut last_changed = last;
            assert(element_size * start_index <= element_size * (buffer_len + 1)) by (nonlinear_arith)
                requires
                    start_index <= buffer_len + 1,
            ;
            if (element_size * start_index) as u64 % alignment != 0 {
                assert(element_size * (start_index - 1) <= element_size * (buffer_len + 1)) by (nonlinear_arith)
                    requires
                        start_index <= buffer_len + 1,
                ;
                if start_index > 0 && (element_size * (start_index - 1)) as u64 % alignment == 0 {
                    start_index = start_index - 1;
                } else {
                    cant_align = true;
                    break;
                }
            }
            assert(element_size * (last_changed + 1 - start_index) <= element_size * (buffer_len + 1))
                by (nonlinear_arith)
                requires
                    last_changed + 1 - start_index <= buffer_len + 1,
                    last_changed + 1 >= start_index,
            ;
            if (element_size * (last_changed + 1 - start_index)) as u64 % alignment != 0 {
                if last_changed + 1 < buffer_len {
                    assert(element_size * (last_changed + 2 - start_index) <= element_size * (buffer_len
                        + 1)) by (nonlinear_arith)
                        requires
                            last_changed + 2 - start_index <= buffer_len + 1,
                            last_changed + 2 >= start_index,
                    ;
                }
                if last_changed + 1 < buffer_len && (element_size * (last_changed + 2 - start_index)) as u64
                    % alignment == 0 {
                    last_changed = last_changed + 1;
                } else {
                    cant_align = true;
                    break;
                }
            }
            proof {
                assert(aligned_range(index as int, last as int, es, al, bl) == Some(
                    (start_index as int, last_changed as int),
                ));
            }
            let ghost before = copies@;
            copies.push((start_index, last_changed));
            proof {
                if exists|k: int| 0 <= k < before.len() && (#[trigger] before[k]).1 >= len {
                    let k = choose|k: int| 0 <= k < before.len() && (#[trigger] before[k]).1 >= len;
                    assert(copies@[k] == before[k]);
                }
                if last_changed >= len {
                    assert(copies@[copies@.len() - 1].1 >= len);
                }
                let tail = planned_copies(changed@, stop + 1, es, al, bl);
                assert(rest == (if last_changed >= len {
                    None
                } else {
                    match tail {
                        None => None,
                        Some((more, u)) => Some((seq![(start_index, last_changed)] + more, u)),
                    }
                }));
            }
            index = stop;
        }
        index = index + 1;
    }
    assert(update_plan(changed@, element_size as int, alignment as int, buffer_len as int)
        == planned_copies(changed@, 0, es, al, bl));
    let plan = BufferUpdatePlan { copies, rebuild: cant_align };
    proof {
        if planned_copies(changed@, 0, es, al, bl) is None {
            let k = choose|k: int| 0 <= k < copies@.len() && (#[trigger] copies@[k]).1 >= len;
            assert(plan.copies@[k] == copies@[k]);
        }
    }
    plan
}

/// Whether the copy of elements `first..=last` lies within the first `len`
/// elements and starts and spans whole multiples of `alignment` bytes.
pub open spec fn copy_fits(copy: (usize, usize), len: int, element_size: int, alignment: int) -> bool {
    &&& copy.0 <= copy.1 < len
    &&& (element_size * copy.0) % alignment == 0
    &&& (element_size * (copy.1 + 1 - copy.0)) % alignment == 0
}

/// Whether some copy in `copies` includes element `i`.
pub open spec fn covered(copies: Seq<(usize, usize)>, i: int) -> bool {
    exists|k: int| 0 <= k < copies.len() && (#[trigger] copies[k]).0 <= i <= copies[k].1
}

proof fn lemma_planned_copies_sound(
    changed: Seq<bool>,
    index: int,
    element_size: int,
    alignment: int,
    buffer_len: int,
)
    requires
        0 <= index,
        alignment > 0,
        changed.len() <= usize::MAX,
        planned_copies(changed, index, element_size, alignment, buffer_len) is Some,
    ensures
        ({
            let (copies, unaligned) = planned_copies(changed, index, element_size, alignment, buffer_len).unwrap();
            &&& forall|k: int| 0 <= k < copies.len() ==> copy_fits(#[trigger] copies[k], changed.len() as int, element_size, alignment)
            &&& !unaligned ==> forall|i: int| index <= i < changed.len() && #[trigger] changed[i] ==> covered(copies, i)
        }),
    decreases changed.len() + 1 - index,
{
    if index >= changed.len() {
    } else if !changed[index] {
        lemma_planned_copies_sound(changed, index + 1, element_size, alignment, buffer_len);
        let (copies, unaligned) = planned_copies(changed, index, element_size, alignment, buffer_len).unwrap();
        assert forall|i: int| index <= i < changed.len() && #[trigger] changed[i] && !unaligned implies covered(copies, i) by {
            assert(i != index);
        }
    } else {
        lemma_run_end_progress(changed, index, index, index);
        let (stop, last) = run_end(changed, index, index, index);
        assert(run_end(changed, index, index, index) == run_end(changed, index, index + 1, index));
        lemma_run_end(changed, index, index + 1, index);
        match aligned_range(index, last, element_size, alignment, buffer_len) {
            None => {},
            Some((s, l)) => {
                lemma_planned_copies_sound(changed, stop + 1, element_size, alignment, buffer_len);
                let (rest, unaligned) = planned_copies(changed, stop + 1, element_size, alignment, buffer_len).unwrap();
                let copies = seq![(s as usize, l as usize)] + rest;
                assert(copies[0] == (s as usize, l as usize));
                assert(index - 1 <= s <= index);
                assert(last <= l <= last + 1);
                assert(l < changed.len());
                assert(s as usize == s && l as usize == l);
                assert forall|k: int| 0 <= k < copies.len() implies copy_fits(#[trigger] copies[k], changed.len() as int, element_size, alignment) by {
                    if k > 0 {
                        assert(copies[k] == rest[k - 1]);
                    }
                }
                assert forall|i: int| index <= i < changed.len() && #[trigger] changed[i] && !unaligned implies covered(copies, i) by {
                    if i <= last {
                        assert(copies[0].0 <= i <= copies[0].1);
                    } else if i <= stop {
                        assert(false);
                    } else {
                        let k = choose|k: int| 0 <= k < rest.len() && (#[trigger] rest[k]).0 <= i <= rest[k].1;
                        assert(copies[k + 1] == rest[k]);
                    }
                }
            },
        }
    }
}

/// A plan only copies whole aligned ranges inside the new contents, and a
/// plan that does not rebuild the buffer copies every changed element, so
/// that after its copies the buffer holds the new contents.
pub proof fn lemma_update_plan_sound(changed: Seq<bool>, element_size: int, alignment: int, buffer_len: int)
    requires
        alignment > 0,
        changed.len() <= usize::MAX,
        update_plan(changed, element_size, alignment, buffer_len) is Some,
    ensures
        ({
            let (copies, rebuild) = update_plan(changed, element_size, alignment, buffer_len).unwrap();
            &&& forall|k: int| 0 <= k < copies.len() ==> copy_fits(#[trigger] copies[k], changed.len() as int, element_size, alignment)
            &&& !rebuild ==> changed.len() <= buffer_len && forall|i: int| 0 <= i < changed.len() && #[trigger] changed[i] ==> covered(copies, i)
        }),
{
    if changed.len() <= buffer_len {
        lemma_planned_copies_sound(changed, 0, element_size, alignment, buffer_len);
    }
}

/// Which of `new_contents` differ from `data`, the buffer's contents; where
/// the new contents are longer than the buffer, every element counts as
/// changed.
pub open spec fn changed_mask<T>(data: Seq<T>, new_contents: Seq<T>) -> Seq<bool> {
    if new_contents.len() <= data.len() {
        Seq::new(new_contents.len(), |i: int| new_contents[i] != data[i])
    } else {
        Seq::new(new_contents.len(), |i: int| true)
    }
}

/// `data` after copying in the elements of `new_contents` that `copies`
/// cover.
pub open spec fn copied<T>(data: Seq<T>, new_contents: Seq<T>, copies: Seq<(usize, usize)>) -> Seq<T> {
    Seq::new(data.len(), |i: int| if covered(copies, i) { new_contents[i] } else { data[i] })
}

/// Whether `==` on `T` compares values.
pub open spec fn compares_values<T: PartialEq>() -> bool {
    vstd::laws_eq::obeys_concrete_eq::<T>()
}

/// Covering by one more copy adds exactly the elements of that copy.
proof fn lemma_covered_push(copies: Seq<(usize, usize)>, k: int, i: int)
    requires
        0 <= k < copies.len(),
    ensures
        covered(copies.take(k + 1), i) <==> (covered(copies.take(k), i) || copies[k].0 <= i <= copies[k].1),
{
    let before = copies.take(k);
    let after = copies.take(k + 1);
    if covered(after, i) {
        let w = choose|w: int| 0 <= w < after.len() && (#[trigger] after[w]).0 <= i <= after[w].1;
        if w < k {
            assert(before[w] == after[w]);
        }
    }
    if covered(before, i) {
        let w = choose|w: int| 0 <= w < before.len() && (#[trigger] before[w]).0 <= i <= before[w].1;
        assert(after[w] == before[w]);
    }
    if copies[k].0 <= i <= copies[k].1 {
        assert(after[k] == copies[k]);
    }
}

/// Brings `data`, the contents of a buffer, up to date with `new_contents`
/// as a buffer update does: plans the copies for the elements that differ
/// (`element_size` bytes each, copies aligned to `alignment` bytes), then
/// copies the planned ranges in, or replaces the contents where the plan
/// rebuilds the buffer. Returns the plan, for the same copies to be made on
/// the GPU; `None`, with `data` unchanged, where the plan would copy past the
/// end of the new contents.
///
/// Afterwards the buffer begins with the new contents.
pub fn update_data<T: Copy + PartialEq>(
    data: &mut Vec<T>,
    new_contents: &Vec<T>,
    element_size: usize,
    alignment: u64,
) -> (r: Option<BufferUpdatePlan>)
    requires
        compares_values::<T>(),
        alignment > 0,
        element_size * (old(data)@.len() + 1) <= usize::MAX,
        new_contents@.len() < usize::MAX,
    ensures
        r is None <==> update_plan(
            changed_mask(old(data)@, new_contents@),
            element_size as int,
            alignment as int,
            old(data)@.len() as int,
        ) is None,
        r is None ==> final(data)@ == old(data)@,
        r matches Some(plan) ==> {
            &&& update_plan(
                changed_mask(old(data)@, new_contents@),
                element_size as int,
                alignment as int,
                old(data)@.len() as int,
            ) == Some((plan.copies@, plan.rebuild))
            &&& plan.rebuild ==> final(data)@ == new_contents@
            &&& !plan.rebuild ==> final(data)@ == copied(old(data)@, new_contents@, plan.copies@)
            &&& final(data)@.len() >= new_contents@.len()
            &&& final(data)@.subrange(0, new_contents@.len() as int) == new_contents@
        },
{
    let ghost old_data = data@;
    assert(old_data == old(data)@);
    let n = new_contents.len();
    let mut changed: Vec<bool> = Vec::new();
    let mut i: usize = 0;
    while i < n
        invariant
            i <= n,
            n == new_contents@.len(),
            data@ == old_data,
            compares_values::<T>(),
            changed@ == changed_mask(old_data, new_contents@).take(i as int),
        decreases n - i,
    {
        proof {
            reveal(vstd::laws_eq::obeys_concrete_eq);
        }
        let differs = if n <= data.len() {
            new_contents[i] != data[i]
        } else {
            true
        };
        changed.push(differs);
        assert(changed@ =~= changed_mask(old_data, new_contents@).take(i + 1));
        i = i + 1;
    }
    assert(changed@ =~= changed_mask(old_data, new_contents@));
    let plan = plan_update(&changed, element_size, alignment, data.len());
    let ghost spec_plan = update_plan(changed@, element_size as int, alignment as int, old_data.len() as int);
    let mut k: usize = 0;
    while k < plan.copies.len()
        invariant
            k <= plan.copies@.len(),
            n == new_contents@.len() == changed@.len(),
            spec_plan is Some ==> forall|j: int| 0 <= j < k ==> (#[trigger] plan.copies@[j]).1 < n,
            spec_plan is None ==> exists|j: int| 0 <= j < plan.copies@.len() && (#[trigger] plan.copies@[j]).1 >= n,
            spec_plan is Some ==> spec_plan == Some((plan.copies@, plan.rebuild)),
            spec_plan == update_plan(changed@, element_size as int, alignment as int, old_data.len() as int),
            changed@ == changed_mask(old_data, new_contents@),
            old_data == old(data)@,
            data@ == old_data,
            alignment > 0,
            n < usize::MAX,
            forall|j: int| 0 <= j < k ==> (#[trigger] plan.copies@[j]).1 < n,
        decreases plan.copies@.len() - k,
    {
        if plan.copies[k].1 >= n {
            proof {
                if spec_plan is Some {
                    lemma_update_plan_sound(changed@, element_size as int, alignment as int, old_data.len() as int);
                    assert(copy_fits(plan.copies@[k as int], n as int, element_size as int, alignment as int));
                }
            }
            return None;
        }
        k = k + 1;
    }
    proof {
        if spec_plan is None {
            let j = choose|j: int| 0 <= j < plan.copies@.len() && (#[trigger] plan.copies@[j]).1 >= n;
            assert(plan.copies@[j].1 < n);
        }
        lemma_update_plan_sound(changed@, element_size as int, alignment as int, old_data.len() as int);
    }
    if plan.rebuild {
        data.clear();
        let mut j: usize = 0;
        while j < n
            invariant
                j <= n,
                n == new_contents@.len(),
                data@ == new_contents@.take(j as int),
            decreases n - j,
        {
            data.push(new_contents[j]);
            assert(data@ =~= new_contents@.take(j + 1));
            j = j + 1;
        }
        assert(data@ =~= new_contents@);
        assert(data@.subrange(0, n as int) =~= new_contents@);
        return Some(plan);
    }
    let mut k: usize = 0;
    assert(data@ =~= copied(old_data, new_contents@, plan.copies@.take(0)));
    while k < plan.copies.len()
        invariant
            k <= plan.copies@.len(),
            n == new_contents@.len(),
            n <= old_data.len(),
            forall|j: int| 0 <= j < plan.copies@.len() ==> (#[trigger] plan.copies@[j]).0 <= plan.copies@[j].1 < n,
            data@ == copied(old_data, new_contents@, plan.copies@.take(k as int)),
        decreases plan.copies@.len() - k,
    {
        let (first, last) = plan.copies[k];
        let mut p: usize = first;
        while p <= last
            invariant
                first <= p <= last + 1,
                last < n,
                n == new_contents@.len(),
                n <= old_data.len(),
                data@.len() == old_data.len(),
                forall|q: int|
                    0 <= q < old_data.len() ==> #[trigger] data@[q] == if covered(plan.copies@.take(k as int), q)
                        || first <= q < p {
                        new_contents@[q]
                    } else {
                        old_data[q]
                    },
            decreases last + 1 - p,
        {
            data.set(p, new_contents[p]);
            p = p + 1;
        }
        proof {
            assert forall|q: int| 0 <= q < old_data.len() implies #[trigger] data@[q] == copied(
                old_data,
                new_contents@,
                plan.copies@.take(k + 1),
            )[q] by {
                lemma_covered_push(plan.copies@, k as int, q);
            }
            assert(data@ =~= copied(old_data, new_contents@, plan.copies@.take(k + 1)));
        }
        k = k + 1;
    }
    assert(plan.copies@.take(plan.copies@.len() as int) =~= plan.copies@);
    proof {
        assert forall|q: int| 0 <= q < n implies data@[q] == new_contents@[q] by {
            if !covered(plan.copies@, q) {
                assert(!changed@[q]);
                reveal(vstd::laws_eq::obeys_concrete_eq);
            }
        }
    }
    assert(data@.subrange(0, n as int) =~= new_contents@);
    Some(plan)
}

} // verus!
