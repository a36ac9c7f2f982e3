//! A rectangle packer for texture atlases that can hand space back out after it
//! has been freed.
//!
//! The texture is split into columns. Each column is a stack of shelves, and
//! each shelf is a row of runs that are either handed out or free.

use vstd::prelude::*;

use crate::math::{Point, Rect, Size, UPixels};

verus! {

/// The mask of the status bit that marks a run as handed out.
pub const ALLOCATED_BIT: u16 = 0x8000;

/// The mask of the status bits that hold a run's offset.
pub const OFFSET_MASK: u16 = 0x7FFF;

/// The abstract contents of an [`Allocation`].
pub struct AllocationView {
    pub offset: int,
    pub length: int,
    pub allocated: bool,
}

/// The abstract contents of a [`Shelf`].
pub struct ShelfView {
    pub y: int,
    pub height: int,
    pub allocated_width: int,
    pub allocations: Seq<AllocationView>,
    pub free_list: Seq<int>,
}

/// One run of a shelf: where it starts, how long it is, and whether it is
/// handed out. The handed-out flag is the top bit of `status`.
#[derive(Debug)]
pub struct Allocation {
    status: u16,
    length: u16,
}

impl View for Allocation {
    type V = AllocationView;

    closed spec fn view(&self) -> AllocationView {
        AllocationView {
            offset: (self.status & OFFSET_MASK) as int,
            length: self.length as int,
            allocated: self.status & ALLOCATED_BIT != 0,
        }
    }
}

/// Every run fits the ranges that its fields can hold.
pub open spec fn allocation_in_range(a: AllocationView) -> bool {
    &&& 0 <= a.offset <= OFFSET_MASK
    &&& 0 <= a.length <= u16::MAX
}

impl Allocation {
    /// The view's fields lie in range.
    pub proof fn lemma_view_in_range(&self)
        ensures
            allocation_in_range(self@),
    {
        let s = self.status;
        assert(s & 0x7FFFu16 <= 0x7FFFu16) by (bit_vector);
    }

    /// Whether this run is handed out.
    pub fn allocated(&self) -> (r: bool)
        ensures
            r == self@.allocated,
    {
        self.status & ALLOCATED_BIT != 0
    }

    /// Where this run starts within its shelf.
    pub fn offset(&self) -> (r: u16)
        ensures
            r as int == self@.offset,
    {
        self.status & OFFSET_MASK
    }

    /// How long this run is.
    pub fn length(&self) -> (r: u16)
        ensures
            r as int == self@.length,
    {
        self.length
    }

    /// Returns a handed-out run at `offset` of `length`.
    ///
    /// `offset` must fit in the 15 offset bits; a larger one panics.
    pub fn new(offset: u16, length: u16) -> (r: Self)
        requires
            offset < 0x8000,
        ensures
            r@ == (AllocationView { offset: offset as int, length: length as int, allocated: true }),
    {
        let mut allocation = Allocation::new_free(offset, length);
        allocation.allocate();
        allocation
    }

    /// Returns a free run at `offset` of `length`.
    ///
    /// `offset` must fit in the 15 offset bits; a larger one panics.
    pub fn new_free(offset: u16, length: u16) -> (r: Self)
        requires
            offset < 0x8000,
        ensures
            r@ == (AllocationView { offset: offset as int, length: length as int, allocated: false }),
    {
        let allocation = Allocation { status: offset, length };
        assert(offset < 0x8000u16 ==> offset & 0x8000u16 == 0 && offset & 0x7FFFu16 == offset)
            by (bit_vector);
        allocation
    }

    /// Marks this run as handed out.
    pub fn allocate(&mut self)
        ensures
            final(self)@ == (AllocationView { allocated: true, ..old(self)@ }),
    {
        let s = self.status;
        assert((s | 0x8000u16) & 0x8000u16 != 0 && (s | 0x8000u16) & 0x7FFFu16 == s & 0x7FFFu16)
            by (bit_vector);
        self.status = self.status | ALLOCATED_BIT;
    }

    /// Marks this run as free.
    pub fn deallocate(&mut self)
        ensures
            final(self)@ == (AllocationView { allocated: false, ..old(self)@ }),
    {
        let s = self.status;
        assert((s & 0x7FFFu16) & 0x8000u16 == 0 && (s & 0x7FFFu16) & 0x7FFFu16 == s & 0x7FFFu16)
            by (bit_vector);
        self.status = self.status & OFFSET_MASK;
    }
}

/// A row of runs at height `y` within a column.
#[derive(Debug)]
pub struct Shelf {
    y: u32,
    height: u16,
    allocated_width: u16,
    allocations: Vec<Allocation>,
    free_list: Vec<u16>,
}

impl View for Shelf {
    type V = ShelfView;

    closed spec fn view(&self) -> ShelfView {
        ShelfView {
            y: self.y as int,
            height: self.height as int,
            allocated_width: self.allocated_width as int,
            allocations: self.allocations@.map_values(|a: Allocation| a@),
            free_list: self.free_list@.map_values(|i: u16| i as int),
        }
    }
}

/// The run that a newly handed-out piece of fresh space becomes.
pub open spec fn taken_run(offset: int, length: int) -> AllocationView {
    AllocationView { offset, length, allocated: true }
}

/// The shelf still has `width` of never-used space in a column `column_width`
/// wide.
pub open spec fn shelf_has_room(s: ShelfView, width: int, column_width: int) -> bool {
    column_width - s.allocated_width >= width
}

/// The free run named by entry `k` of the free list is at least `width` long.
pub open spec fn free_slot_fits(s: ShelfView, width: int, k: int) -> bool {
    s.allocations[s.free_list[k]].length >= width
}

/// The last of the first `n` free-list entries whose run is at least `width`
/// long, or -1 when there is none.
pub open spec fn last_fitting_slot(s: ShelfView, width: int, n: int) -> int
    decreases n,
{
    if n <= 0 {
        -1
    } else if free_slot_fits(s, width, n - 1) {
        n - 1
    } else {
        last_fitting_slot(s, width, n - 1)
    }
}

/// The free-list entry reused when there is no fresh room, or -1.
pub open spec fn reused_slot(s: ShelfView, width: int) -> int {
    last_fitting_slot(s, width, s.free_list.len() as int)
}

/// The outcome of handing out `width` in a shelf of a column `column_width`
/// wide: the new shelf and the offset handed out.
///
/// Fresh space at the end of the shelf is used first. Otherwise the free list
/// is searched from its end for a run at least `width` long; that run is marked
/// as handed out, and when it is longer than `width` a free run of the
/// difference is recorded right after it, starting where the reused run ends.
pub open spec fn shelf_allocate(s: ShelfView, width: int, column_width: int) -> (ShelfView, Option<int>) {
    if shelf_has_room(s, width, column_width) {
        (
            ShelfView {
                allocations: s.allocations.push(taken_run(s.allocated_width, width)),
                allocated_width: s.allocated_width + width,
                ..s
            },
            Some(s.allocated_width),
        )
    } else {
        let k = reused_slot(s, width);
        if k < 0 {
            (s, None)
        } else {
            let i = s.free_list[k];
            let a = s.allocations[i];
            let taken = s.allocations.update(i, AllocationView { allocated: true, ..a });
            if a.length > width {
                (
                    ShelfView {
                        allocations: taken.insert(
                            i + 1,
                            AllocationView {
                                offset: a.offset + a.length,
                                length: a.length - width,
                                allocated: false,
                            },
                        ),
                        free_list: s.free_list.update(k, i + 1),
                        ..s
                    },
                    Some(a.offset),
                )
            } else {
                (ShelfView { allocations: taken, free_list: s.free_list.remove(k), ..s }, Some(a.offset))
            }
        }
    }
}

/// Handing out `width` does not panic: the offsets involved fit in 15 bits and
/// the index after a split run fits in a `u16`.
pub open spec fn shelf_allocate_safe(s: ShelfView, width: int, column_width: int) -> bool {
    if shelf_has_room(s, width, column_width) {
        s.allocated_width < 0x8000
    } else {
        let k = reused_slot(s, width);
        k >= 0 ==> {
            let i = s.free_list[k];
            let a = s.allocations[i];
            a.length > width ==> a.offset + a.length < 0x8000 && i < u16::MAX
        }
    }
}

/// The shelf is consistent for a column `column_width` wide: its fresh space
/// does not go past the column, and the free list names runs of the shelf.
pub open spec fn shelf_wf(s: ShelfView, column_width: int) -> bool {
    &&& 0 <= s.allocated_width <= column_width
    &&& forall|k: int| 0 <= k < s.free_list.len() ==> 0 <= #[trigger] s.free_list[k] < s.allocations.len()
}

impl Shelf {
    /// The view's scalar fields lie in the ranges of their types.
    pub proof fn lemma_view_in_range(&self)
        ensures
            0 <= self@.y <= u32::MAX,
            0 <= self@.height <= u16::MAX,
            0 <= self@.allocated_width <= u16::MAX,
            forall|k: int| 0 <= k < self@.free_list.len() ==> 0 <= #[trigger] self@.free_list[k] <= u16::MAX,
            forall|i: int| 0 <= i < self@.allocations.len() ==> allocation_in_range(#[trigger] self@.allocations[i]),
    {
        assert forall|i: int| 0 <= i < self@.allocations.len() implies allocation_in_range(#[trigger] self@.allocations[i]) by {
            self.allocations@[i].lemma_view_in_range();
        }
    }

    /// Returns an empty shelf at `y` that is `height` tall.
    pub fn new(y: u32, height: u16) -> (r: Self)
        ensures
            r@ == (ShelfView {
                y: y as int,
                height: height as int,
                allocated_width: 0,
                allocations: Seq::empty(),
                free_list: Seq::empty(),
            }),
    {
        let r = Shelf { y, height, allocated_width: 0, allocations: Vec::new(), free_list: Vec::new() };
        assert(r@.allocations =~= Seq::empty());
        assert(r@.free_list =~= Seq::empty());
        r
    }

    /// Where this shelf starts within its column.
    pub fn y(&self) -> (r: u32)
        ensures
            r as int == self@.y,
    {
        self.y
    }

    /// How tall this shelf is.
    pub fn height(&self) -> (r: u16)
        ensures
            r as int == self@.height,
    {
        self.height
    }

    /// Hands out `width` of this shelf in a column `column_width` wide and
    /// returns its offset, or `None` when neither fresh space nor a free run
    /// can hold it.
    pub fn allocate(&mut self, width: u16, column_width: u16) -> (r: Option<u16>)
        requires
            shelf_wf(old(self)@, column_width as int),
            shelf_allocate_safe(old(self)@, width as int, column_width as int),
        ensures
            shelf_wf(final(self)@, column_width as int),
            final(self)@ == shelf_allocate(old(self)@, width as int, column_width as int).0,
            r matches Some(o) ==> shelf_allocate(old(self)@, width as int, column_width as int).1 == Some(o as int),
            r is None ==> shelf_allocate(old(self)@, width as int, column_width as int).1 is None,
    {
        let ghost s0 = self@;
        let remaining_width = column_width - self.allocated_width;
        if remaining_width >= width {
            let offset = self.allocated_width;
            self.allocations.push(Allocation::new(offset, width));
            self.allocated_width = self.allocated_width + width;
            assert(self@.allocations =~= s0.allocations.push(taken_run(s0.allocated_width, width as int)));
            assert(self@.free_list =~= s0.free_list);
            Some(offset)
        } else {
            let n = self.free_list.len();
            let mut j = n;
            while j > 0
                invariant
                    j <= n,
                    n == self.free_list.len(),
                    self@ == s0,
                    s0 == old(self)@,
                    shelf_wf(s0, column_width as int),
                    !shelf_has_room(s0, width as int, column_width as int),
                    shelf_allocate_safe(s0, width as int, column_width as int),
                    reused_slot(s0, width as int) == last_fitting_slot(s0, width as int, j as int),
                decreases j,
            {
                let free_list_index = j - 1;
                let free_index = self.free_list[free_list_index];
                proof {
                    assert(s0.free_list[free_list_index as int] == free_index as int);
                    self.lemma_view_in_range();
                }
                let length = self.allocations[free_index as usize].length;
                proof {
                    assert(s0.allocations[free_index as int].length == length);
                }
                if length >= width {
                    proof {
                        assert(free_slot_fits(s0, width as int, free_list_index as int));
                        assert(reused_slot(s0, width as int) == free_list_index as int);
                        self.allocations@[free_index as int].lemma_view_in_range();
                    }
                    let extra_space = length - width;
                    let offset = self.allocations[free_index as usize].offset();
                    self.allocations[free_index as usize].allocate();
                    let ghost i = free_index as int;
                    let ghost a = s0.allocations[i];
                    assert(self@.allocations =~= s0.allocations.update(i, AllocationView { allocated: true, ..a }));
                    if extra_space > 0 {
                        let new_offset = offset + length;
                        self.allocations.insert(
                            (free_index + 1) as usize,
                            Allocation::new_free(new_offset, extra_space),
                        );
                        self.free_list.set(free_list_index, free_index + 1);
                        assert(self@.allocations =~= s0.allocations.update(
                            i,
                            AllocationView { allocated: true, ..a },
                        ).insert(
                            i + 1,
                            AllocationView { offset: a.offset + a.length, length: a.length - width, allocated: false },
                        ));
                        assert(self@.free_list =~= s0.free_list.update(free_list_index as int, i + 1));
                    } else {
                        self.free_list.remove(free_list_index);
                        assert(self@.free_list =~= s0.free_list.remove(free_list_index as int));
                    }
                    return Some(offset);
                }
                proof {
                    assert(!free_slot_fits(s0, width as int, free_list_index as int));
                }
                j = j - 1;
            }
            None
        }
    }

    /// Frees the first run that starts at `offset` and returns its index.
    fn release(&mut self, offset: u16) -> (r: usize)
        requires
            first_with_offset(old(self)@.allocations, offset as int, 0) >= 0,
            old(self)@.allocations[first_with_offset(old(self)@.allocations, offset as int, 0)].allocated,
            first_with_offset(old(self)@.allocations, offset as int, 0) <= u16::MAX,
        ensures
            r as int == first_with_offset(old(self)@.allocations, offset as int, 0),
            final(self)@ == shelf_release(old(self)@, r as int),
    {
        let ghost s0 = self@;
        let len = self.allocations.len();
        let mut index: usize = 0;
        while index < len
            invariant
                s0 == old(self)@,
                self@ == s0,
                len == s0.allocations.len(),
                index <= len,
                first_with_offset(s0.allocations, offset as int, 0) <= u16::MAX,
                first_with_offset(s0.allocations, offset as int, 0) == first_with_offset(
                    s0.allocations,
                    offset as int,
                    index as int,
                ),
            decreases len - index,
        {
            let here = self.allocations[index].offset();
            proof {
                assert(s0.allocations[index as int].offset == here as int);
            }
            if here == offset {
                proof {
                    assert(first_with_offset(s0.allocations, offset as int, index as int) == index as int);
                }
                self.allocations[index].deallocate();
                self.free_list.push(index as u16);
                proof {
                    assert(self@.allocations =~= s0.allocations.update(
                        index as int,
                        AllocationView { allocated: false, ..s0.allocations[index as int] },
                    ));
                    assert(self@.free_list =~= s0.free_list.push(index as int));
                }
                return index;
            }
            index = index + 1;
        }
        proof {
            assert(false);
        }
        0
    }
}


/// Names a handed-out piece of a packer: the column, the shelf within it, and
/// the offset within the shelf.
#[derive(Clone, Copy, Eq, PartialEq, Debug, Structural)]
pub struct AllocationId {
    pub shelf: u16,
    pub column: u16,
    pub offset: u16,
}

/// The abstract contents of a [`Column`].
pub struct ColumnView {
    pub x: int,
    pub allocated_height: int,
    pub width: int,
    pub shelves: Seq<ShelfView>,
    pub shelves_by_height: Seq<int>,
}

/// A vertical strip of the texture at `x`, `width` wide, holding a stack of
/// shelves.
#[derive(Debug)]
pub struct Column {
    x: u32,
    allocated_height: u32,
    width: u16,
    shelves: Vec<Shelf>,
    shelves_by_height: Vec<u16>,
}

impl View for Column {
    type V = ColumnView;

    closed spec fn view(&self) -> ColumnView {
        ColumnView {
            x: self.x as int,
            allocated_height: self.allocated_height as int,
            width: self.width as int,
            shelves: self.shelves@.map_values(|s: Shelf| s@),
            shelves_by_height: self.shelves_by_height@.map_values(|i: u16| i as int),
        }
    }
}

/// The height of the shelf at position `p` of the height ordering.
pub open spec fn height_at(c: ColumnView, p: int) -> int {
    c.shelves[c.shelves_by_height[p]].height
}

/// The column is consistent: its shelves are consistent, the height ordering
/// names its shelves, and it lists them from shortest to tallest.
pub open spec fn column_wf(c: ColumnView) -> bool {
    &&& forall|i: int| 0 <= i < c.shelves.len() ==> shelf_wf(#[trigger] c.shelves[i], c.width)
    &&& forall|p: int| 0 <= p < c.shelves_by_height.len() ==> 0 <= #[trigger] c.shelves_by_height[p] < c.shelves.len()
    &&& forall|p: int, q: int| 0 <= p < q < c.shelves_by_height.len() ==> height_at(c, p) <= height_at(c, q)
}

/// The position, from `p` on in the height ordering, of the shelf that takes
/// a `width` by `height` request, or -1.
///
/// Shelves shorter than the request are skipped; the search gives up at the
/// first shelf whose half is taller than the request, so that no more than
/// half a shelf is left empty.
pub open spec fn column_candidate(c: ColumnView, width: int, height: int, p: int) -> int
    decreases c.shelves_by_height.len() - p,
{
    if p < 0 || p >= c.shelves_by_height.len() {
        -1
    } else {
        let s = c.shelves[c.shelves_by_height[p]];
        if s.height < height {
            column_candidate(c, width, height, p + 1)
        } else if s.height / 2 > height {
            -1
        } else if shelf_allocate(s, width, c.width).1 is Some {
            p
        } else {
            column_candidate(c, width, height, p + 1)
        }
    }
}

/// The outcome of handing out `width` by `height` in an existing shelf of the
/// column: the new column, and the shelf index and offset handed out.
pub open spec fn column_allocate(c: ColumnView, width: int, height: int) -> (ColumnView, Option<(int, int)>) {
    let p = column_candidate(c, width, height, 0);
    if p < 0 {
        (c, None)
    } else {
        let i = c.shelves_by_height[p];
        let r = shelf_allocate(c.shelves[i], width, c.width);
        (ColumnView { shelves: c.shelves.update(i, r.0), ..c }, Some((i, r.1.unwrap())))
    }
}

/// Handing out in an existing shelf does not panic.
pub open spec fn column_allocate_safe(c: ColumnView, width: int, height: int, my_index: int) -> bool {
    let p = column_candidate(c, width, height, 0);
    p >= 0 ==> {
        &&& shelf_allocate_safe(c.shelves[c.shelves_by_height[p]], width, c.width)
        &&& my_index <= u16::MAX
    }
}

/// The first position, from `q` on, in the height ordering whose shelf is
/// taller than `height`, or the length of the ordering.
pub open spec fn first_taller(c: ColumnView, height: int, q: int) -> int
    decreases c.shelves_by_height.len() - q,
{
    if q < 0 || q >= c.shelves_by_height.len() {
        c.shelves_by_height.len() as int
    } else if height_at(c, q) > height {
        q
    } else {
        first_taller(c, height, q + 1)
    }
}

/// Where a new shelf `height` tall enters the height ordering: after every
/// shorter shelf, and in front of the last one of equal height, if any.
pub open spec fn new_shelf_position(c: ColumnView, height: int) -> int {
    let t = first_taller(c, height, 0);
    if t > 0 && height_at(c, t - 1) == height {
        t - 1
    } else {
        t
    }
}

/// The shelf that a new shelf becomes once `width` has been handed out in it.
pub open spec fn started_shelf(y: int, height: int, width: int) -> ShelfView {
    ShelfView {
        y,
        height,
        allocated_width: width,
        allocations: seq![taken_run(0, width)],
        free_list: Seq::empty(),
    }
}

/// The outcome of opening a new shelf `height` tall on top of the column and
/// handing out `width` at its start: the new column and the new shelf's index.
pub open spec fn column_allocate_in_new_shelf(c: ColumnView, width: int, height: int) -> (ColumnView, int) {
    (
        ColumnView {
            allocated_height: c.allocated_height + height,
            shelves: c.shelves.push(started_shelf(c.allocated_height, height, width)),
            shelves_by_height: c.shelves_by_height.insert(
                new_shelf_position(c, height),
                c.shelves.len() as int,
            ),
            ..c
        },
        c.shelves.len() as int,
    )
}

/// Opening a new shelf and handing out in it does not panic.
pub open spec fn column_new_shelf_safe(c: ColumnView, width: int, height: int, my_index: int) -> bool {
    &&& width <= c.width
    &&& c.shelves.len() <= u16::MAX
    &&& my_index <= u16::MAX
    &&& c.allocated_height + height <= u32::MAX
}

/// A shelf on which handing out fails needs nothing for safety.
proof fn lemma_failing_shelf_safe(s: ShelfView, width: int, column_width: int)
    requires
        shelf_allocate(s, width, column_width).1 is None,
    ensures
        shelf_allocate_safe(s, width, column_width),
{
}

/// From any start up to the boundary, the first taller shelf is at the
/// boundary.
proof fn lemma_first_taller(c: ColumnView, height: int, q: int, b: int)
    requires
        0 <= q <= b <= c.shelves_by_height.len(),
        forall|i: int| 0 <= i < b ==> height_at(c, i) <= height,
        forall|i: int| b <= i < c.shelves_by_height.len() ==> height_at(c, i) > height,
    ensures
        first_taller(c, height, q) == b,
    decreases b - q,
{
    if q < b {
        lemma_first_taller(c, height, q + 1, b);
    }
}

/// Columns that agree on the height ordering and on the heights it names
/// agree on where the first taller shelf is.
proof fn lemma_first_taller_same(c0: ColumnView, c1: ColumnView, height: int, q: int)
    requires
        c0.shelves_by_height == c1.shelves_by_height,
        forall|p: int| 0 <= p < c0.shelves_by_height.len() ==> #[trigger] height_at(c1, p) == height_at(c0, p),
    ensures
        first_taller(c0, height, q) == first_taller(c1, height, q),
        0 <= q <= c0.shelves_by_height.len() ==> q <= first_taller(c0, height, q) <= c0.shelves_by_height.len(),
    decreases c0.shelves_by_height.len() - q,
{
    if 0 <= q < c0.shelves_by_height.len() {
        lemma_first_taller_same(c0, c1, height, q + 1);
    }
}

/// Columns that agree on the height ordering and on the heights it names
/// place a new shelf at the same position.
proof fn lemma_new_shelf_position_same(c0: ColumnView, c1: ColumnView, height: int)
    requires
        c0.shelves_by_height == c1.shelves_by_height,
        forall|p: int| 0 <= p < c0.shelves_by_height.len() ==> #[trigger] height_at(c1, p) == height_at(c0, p),
    ensures
        new_shelf_position(c0, height) == new_shelf_position(c1, height),
{
    lemma_first_taller_same(c0, c1, height, 0);
}

/// In an ordered column, the shelves before the first taller one are no
/// taller than `height`, and every shelf from it on is taller.
proof fn lemma_first_taller_bounds(c: ColumnView, height: int, q: int)
    requires
        column_wf(c),
        0 <= q <= c.shelves_by_height.len(),
    ensures
        q <= first_taller(c, height, q) <= c.shelves_by_height.len(),
        forall|i: int| q <= i < first_taller(c, height, q) ==> height_at(c, i) <= height,
        forall|i: int| first_taller(c, height, q) <= i < c.shelves_by_height.len() ==> height_at(c, i) > height,
    decreases c.shelves_by_height.len() - q,
{
    if q < c.shelves_by_height.len() {
        if height_at(c, q) > height {
            assert forall|i: int| q <= i < c.shelves_by_height.len() implies height_at(c, i) > height by {
                if i > q {
                    assert(height_at(c, q) <= height_at(c, i));
                }
            }
        } else {
            lemma_first_taller_bounds(c, height, q + 1);
        }
    }
}

proof fn lemma_first_with_offset_range(allocations: Seq<AllocationView>, offset: int, q: int)
    ensures
        first_with_offset(allocations, offset, q) == -1 || (q <= first_with_offset(allocations, offset, q) < allocations.len()),
    decreases allocations.len() - q,
{
    if 0 <= q < allocations.len() {
        lemma_first_with_offset_range(allocations, offset, q + 1);
    }
}

impl Column {
    /// The view's scalar fields lie in the ranges of their types.
    pub proof fn lemma_view_in_range(&self)
        ensures
            0 <= self@.x <= u32::MAX,
            0 <= self@.allocated_height <= u32::MAX,
            0 <= self@.width <= u16::MAX,
            forall|p: int| 0 <= p < self@.shelves_by_height.len() ==> 0 <= #[trigger] self@.shelves_by_height[p] <= u16::MAX,
    {
    }

    /// Returns an empty column at `x` that is `width` wide.
    pub fn new(x: u32, width: u16) -> (r: Self)
        ensures
            r@ == (ColumnView {
                x: x as int,
                allocated_height: 0,
                width: width as int,
                shelves: Seq::empty(),
                shelves_by_height: Seq::empty(),
            }),
            column_wf(r@),
    {
        let r = Column { x, width, shelves: Vec::new(), shelves_by_height: Vec::new(), allocated_height: 0 };
        assert(r@.shelves =~= Seq::empty());
        assert(r@.shelves_by_height =~= Seq::empty());
        r
    }

    /// Opens a new shelf `height` tall on top of the column and returns it.
    ///
    /// The new shelf is not entered in the height ordering.
    pub fn new_shelf(&mut self, height: u16) -> (r: &mut Shelf)
        requires
            old(self)@.allocated_height + height <= u32::MAX,
        ensures
            r@ == (ShelfView {
                y: old(self)@.allocated_height,
                height: height as int,
                allocated_width: 0,
                allocations: Seq::empty(),
                free_list: Seq::empty(),
            }),
            final(self)@.allocated_height == old(self)@.allocated_height + height,
            final(self)@.shelves =~= old(self)@.shelves.push(final(r)@),
            final(self)@.x == old(self)@.x,
            final(self)@.width == old(self)@.width,
            final(self)@.shelves_by_height == old(self)@.shelves_by_height,
    {
        let shelf = Shelf::new(self.allocated_height, height);
        self.allocated_height = self.allocated_height + height as u32;
        let index = self.shelves.len();
        self.shelves.push(shelf);
        let r = &mut self.shelves[index];
        r
    }

    /// Where a new shelf `height` tall enters the height ordering, found by
    /// binary search over the ordering.
    fn by_height_position(&self, height: u16) -> (r: usize)
        requires
            column_wf(self@),
        ensures
            r as int == new_shelf_position(self@, height as int),
    {
        let ghost c = self@;
        let len = self.shelves_by_height.len();
        if len == 0 {
            proof {
                lemma_first_taller(c, height as int, 0, 0);
            }
            return 0;
        }
        let mut size = len;
        let mut base: usize = 0;
        while size > 1
            invariant
                c == self@,
                column_wf(c),
                len == c.shelves_by_height.len(),
                1 <= size,
                base + size <= len,
                base == 0 || height_at(c, base as int) <= height,
                forall|q: int| 0 <= q < base ==> height_at(c, q) <= height,
                forall|q: int| base + size <= q < len ==> height_at(c, q) > height,
            decreases size,
        {
            let half = size / 2;
            let mid = base + half;
            proof {
                assert(c.shelves_by_height[mid as int] == self.shelves_by_height@[mid as int] as int);
            }
            let mid_height = self.shelves[self.shelves_by_height[mid] as usize].height;
            proof {
                assert(mid_height as int == height_at(c, mid as int));
            }
            if mid_height > height {
            } else {
                proof {
                    assert forall|q: int| 0 <= q < mid implies height_at(c, q) <= height by {
                        assert(height_at(c, q) <= height_at(c, mid as int));
                    }
                }
                base = mid;
            }
            size = size - half;
        }
        proof {
            assert(c.shelves_by_height[base as int] == self.shelves_by_height@[base as int] as int);
        }
        let base_height = self.shelves[self.shelves_by_height[base] as usize].height;
        proof {
            assert(base_height as int == height_at(c, base as int));
        }
        if base_height <= height {
            proof {
                lemma_first_taller(c, height as int, 0, base as int + 1);
            }
            if base_height == height {
                base
            } else {
                base + 1
            }
        } else {
            proof {
                lemma_first_taller(c, height as int, 0, base as int);
            }
            base
        }
    }

    /// Opens a new shelf as tall as `area`, hands out `area`'s width at its
    /// start, and enters the shelf in the height ordering.
    pub fn allocate_in_new_shelf(&mut self, area: Size<u16>, my_index: usize) -> (r: AllocationId)
        requires
            column_wf(old(self)@),
            column_new_shelf_safe(old(self)@, area.width as int, area.height as int, my_index as int),
        ensures
            column_wf(final(self)@),
            final(self)@ == column_allocate_in_new_shelf(old(self)@, area.width as int, area.height as int).0,
            r.shelf as int == old(self)@.shelves.len(),
            r.column as int == my_index,
            r.offset == 0,
    {
        let ghost c0 = self@;
        let column_width = self.width;
        let shelf_index = self.shelves.len() as u16;
        let shelf = self.new_shelf(area.height);
        let ghost s0 = shelf@;
        let offset = shelf.allocate(area.width, column_width);
        let offset = match offset {
            Some(o) => o,
            None => {
                proof {
                    assert(false);
                }
                0
            },
        };
        let ghost c1 = self@;
        proof {
            assert(s0.allocations.push(taken_run(0, area.width as int)) =~= seq![taken_run(0, area.width as int)]);
            assert(c1.shelves =~= c0.shelves.push(started_shelf(c0.allocated_height, area.height as int, area.width as int)));
            assert forall|i: int| 0 <= i < c1.shelves.len() implies shelf_wf(#[trigger] c1.shelves[i], c1.width) by {
                if i < c0.shelves.len() {
                    assert(c1.shelves[i] == c0.shelves[i]);
                }
            }
            assert forall|p: int, q: int| 0 <= p < q < c0.shelves_by_height.len() implies height_at(c1, p) <= height_at(c1, q) by {
                assert(height_at(c1, p) == height_at(c0, p));
                assert(height_at(c1, q) == height_at(c0, q));
            }
            assert(c1.shelves_by_height == c0.shelves_by_height);
            assert forall|p: int| 0 <= p < c0.shelves_by_height.len() implies #[trigger] height_at(c1, p) == height_at(c0, p) by {}
        }
        proof {
            lemma_new_shelf_position_same(c0, c1, area.height as int);
            lemma_first_taller_bounds(c0, area.height as int, 0);
        }
        let by_height_index = self.by_height_position(area.height);
        self.shelves_by_height.insert(by_height_index, shelf_index);
        let ghost c2 = self@;
        proof {
            let pos = by_height_index as int;
            let h = area.height as int;
            assert(c2.shelves_by_height =~= c0.shelves_by_height.insert(pos, c0.shelves.len() as int));
            assert(c2 == column_allocate_in_new_shelf(c0, area.width as int, h).0);
            let t = first_taller(c0, h, 0);
            lemma_first_taller_bounds(c0, h, 0);
            assert(forall|i: int| 0 <= i < t ==> height_at(c0, i) <= h);
            assert(forall|i: int| t <= i < c0.shelves_by_height.len() ==> height_at(c0, i) > h);
            assert forall|p: int, q: int| 0 <= p < q < c2.shelves_by_height.len() implies height_at(c2, p) <= height_at(c2, q) by {
                let n = c0.shelves_by_height.len() as int;
                assert(forall|i: int| 0 <= i < n ==> #[trigger] height_at(c1, i) == height_at(c0, i));
                if p < pos {
                    assert(height_at(c2, p) == height_at(c0, p));
                } else if p == pos {
                    assert(height_at(c2, p) == h);
                } else {
                    assert(height_at(c2, p) == height_at(c0, p - 1));
                }
                if q < pos {
                    assert(height_at(c2, q) == height_at(c0, q));
                } else if q == pos {
                    assert(height_at(c2, q) == h);
                } else {
                    assert(height_at(c2, q) == height_at(c0, q - 1));
                }
            }
        }
        AllocationId { shelf: shelf_index, column: my_index as u16, offset }
    }

    /// Frees, in shelf `shelf`, the first run that starts at `offset`.
    fn release(&mut self, shelf: u16, offset: u16)
        requires
            shelf < old(self)@.shelves.len(),
            column_wf(old(self)@),
            first_with_offset(old(self)@.shelves[shelf as int].allocations, offset as int, 0) >= 0,
            old(self)@.shelves[shelf as int].allocations[first_with_offset(
                old(self)@.shelves[shelf as int].allocations,
                offset as int,
                0,
            )].allocated,
            first_with_offset(old(self)@.shelves[shelf as int].allocations, offset as int, 0) <= u16::MAX,
        ensures
            column_wf(final(self)@),
            final(self)@ == (ColumnView {
                shelves: old(self)@.shelves.update(
                    shelf as int,
                    shelf_release(
                        old(self)@.shelves[shelf as int],
                        first_with_offset(old(self)@.shelves[shelf as int].allocations, offset as int, 0),
                    ),
                ),
                ..old(self)@
            }),
    {
        let ghost c0 = self@;
        proof {
            assert(self.shelves@[shelf as int]@ == c0.shelves[shelf as int]);
        }
        self.shelves[shelf as usize].release(offset);
        proof {
            let i = first_with_offset(c0.shelves[shelf as int].allocations, offset as int, 0);
            let s1 = shelf_release(c0.shelves[shelf as int], i);
            lemma_first_with_offset_range(c0.shelves[shelf as int].allocations, offset as int, 0);
            assert(self@.shelves =~= c0.shelves.update(shelf as int, s1));
            assert forall|j: int| 0 <= j < self@.shelves.len() implies shelf_wf(#[trigger] self@.shelves[j], self@.width) by {
                if j != shelf as int {
                    assert(self@.shelves[j] == c0.shelves[j]);
                } else {
                    assert(shelf_wf(c0.shelves[j], c0.width));
                }
            }
            assert forall|a: int, b: int| 0 <= a < b < self@.shelves_by_height.len() implies height_at(self@, a) <= height_at(self@, b) by {
                assert(height_at(self@, a) == height_at(c0, a));
                assert(height_at(self@, b) == height_at(c0, b));
            }
        }
    }

    /// Hands out `area` in an existing shelf of this column, trying shelves
    /// from the shortest up, and returns where, or `None`.
    pub fn allocate(&mut self, area: Size<u16>, my_index: usize) -> (r: Option<AllocationId>)
        requires
            column_wf(old(self)@),
            column_allocate_safe(old(self)@, area.width as int, area.height as int, my_index as int),
        ensures
            column_wf(final(self)@),
            final(self)@ == column_allocate(old(self)@, area.width as int, area.height as int).0,
            match r {
                Some(id) => {
                    &&& column_allocate(old(self)@, area.width as int, area.height as int).1 == Some(
                        (id.shelf as int, id.offset as int),
                    )
                    &&& id.column as int == my_index
                },
                None => column_allocate(old(self)@, area.width as int, area.height as int).1 is None,
            },
    {
        let ghost c0 = self@;
        let len = self.shelves_by_height.len();
        let mut p: usize = 0;
        while p < len
            invariant
                c0 == old(self)@,
                self@ == c0,
                column_wf(c0),
                column_allocate_safe(c0, area.width as int, area.height as int, my_index as int),
                len == c0.shelves_by_height.len(),
                p <= len,
                column_candidate(c0, area.width as int, area.height as int, 0) == column_candidate(
                    c0,
                    area.width as int,
                    area.height as int,
                    p as int,
                ),
            ensures
                self@ == c0,
                column_candidate(c0, area.width as int, area.height as int, 0) == -1,
            decreases len - p,
        {
            let shelf_index = self.shelves_by_height[p];
            let column_width = self.width;
            proof {
                assert(c0.shelves_by_height[p as int] == shelf_index as int);
            }
            let shelf_height = self.shelves[shelf_index as usize].height;
            proof {
                assert(c0.shelves[shelf_index as int].height == shelf_height as int);
            }
            if shelf_height < area.height {
                p = p + 1;
                continue;
            } else if shelf_height / 2 > area.height {
                break;
            }
            let ghost s0 = c0.shelves[shelf_index as int];
            proof {
                if shelf_allocate(s0, area.width as int, column_width as int).1 is None {
                    lemma_failing_shelf_safe(s0, area.width as int, column_width as int);
                }
            }
            let attempt = self.shelves[shelf_index as usize].allocate(area.width, column_width);
            match attempt {
                Some(offset) => {
                    proof {
                        assert(self@.shelves =~= c0.shelves.update(
                            shelf_index as int,
                            shelf_allocate(s0, area.width as int, column_width as int).0,
                        ));
                        assert forall|i: int| 0 <= i < self@.shelves.len() implies shelf_wf(
                            #[trigger] self@.shelves[i],
                            self@.width,
                        ) by {
                            if i != shelf_index as int {
                                assert(self@.shelves[i] == c0.shelves[i]);
                            }
                        }
                        assert forall|a: int, b: int| 0 <= a < b < self@.shelves_by_height.len() implies height_at(self@, a) <= height_at(self@, b) by {
                            assert(height_at(self@, a) == height_at(c0, a));
                            assert(height_at(self@, b) == height_at(c0, b));
                        }
                    }
                    return Some(AllocationId { shelf: shelf_index, column: my_index as u16, offset });
                },
                None => {
                    proof {
                        assert(self@.shelves =~= c0.shelves);
                    }
                },
            }
            p = p + 1;
        }
        None
    }
}

/// The abstract contents of a [`TexturePacker`].
pub struct PackerView {
    pub width: int,
    pub height: int,
    pub allocated_width: int,
    pub minimum_column_width: int,
    pub columns: Seq<ColumnView>,
}

/// Packs rectangles into a texture of a fixed size, reusing space that has
/// been freed.
#[derive(Debug)]
pub struct TexturePacker {
    size: Size<UPixels>,
    allocated_width: u32,
    minimum_column_width: u16,
    columns: Vec<Column>,
}

impl View for TexturePacker {
    type V = PackerView;

    closed spec fn view(&self) -> PackerView {
        PackerView {
            width: self.size.width.0 as int,
            height: self.size.height.0 as int,
            allocated_width: self.allocated_width as int,
            minimum_column_width: self.minimum_column_width as int,
            columns: self.columns@.map_values(|c: Column| c@),
        }
    }
}

/// A rectangle handed out by a [`TexturePacker`], with the id that frees it.
#[derive(Clone, Copy, Eq, PartialEq, Debug)]
pub struct TextureAllocation {
    pub allocation: AllocationId,
    pub rect: Rect<UPixels>,
}

/// The packer is consistent: its columns do not go past the texture's width
/// and each column is consistent.
pub open spec fn packer_wf(pk: PackerView) -> bool {
    &&& 0 <= pk.allocated_width <= pk.width
    &&& forall|i: int| 0 <= i < pk.columns.len() ==> column_wf(#[trigger] pk.columns[i])
}

/// The first column, from `ci` on, that is wide enough for `width` and has an
/// existing shelf that takes `width` by `height`, or -1.
pub open spec fn reusing_column(pk: PackerView, width: int, height: int, ci: int) -> int
    decreases pk.columns.len() - ci,
{
    if ci < 0 || ci >= pk.columns.len() {
        -1
    } else if width <= pk.columns[ci].width && column_candidate(pk.columns[ci], width, height, 0) >= 0 {
        ci
    } else {
        reusing_column(pk, width, height, ci + 1)
    }
}

/// The first column, from `ci` on, that is wide enough for `width` and either
/// has room above its shelves for `height` or has grown past the texture's
/// height, or -1.
pub open spec fn growing_column(pk: PackerView, width: int, height: int, ci: int) -> int
    decreases pk.columns.len() - ci,
{
    if ci < 0 || ci >= pk.columns.len() {
        -1
    } else if width <= pk.columns[ci].width && (pk.columns[ci].allocated_height > pk.height
        || pk.height - pk.columns[ci].allocated_height >= height) {
        ci
    } else {
        growing_column(pk, width, height, ci + 1)
    }
}

/// How wide a new column for a request `width` wide is.
pub open spec fn new_column_width(pk: PackerView, width: int) -> int {
    if width < pk.minimum_column_width {
        pk.minimum_column_width
    } else {
        width
    }
}

/// The column that a new column becomes once a request has been handed out in
/// its first shelf.
pub open spec fn started_column(pk: PackerView, width: int, height: int) -> ColumnView {
    column_allocate_in_new_shelf(
        ColumnView {
            x: pk.allocated_width,
            allocated_height: 0,
            width: new_column_width(pk, width),
            shelves: Seq::empty(),
            shelves_by_height: Seq::empty(),
        },
        width,
        height,
    ).0
}

/// The outcome of handing out `width` by `height`: the new packer, and the
/// shelf, column and offset handed out.
///
/// An existing shelf of the first column that can take the request is used;
/// otherwise a new shelf is opened in the first column with room for one;
/// otherwise a new column is opened if the texture is wide enough.
pub open spec fn packer_allocate(pk: PackerView, width: int, height: int) -> (PackerView, Option<(int, int, int)>) {
    let c1 = reusing_column(pk, width, height, 0);
    if c1 >= 0 {
        let r = column_allocate(pk.columns[c1], width, height);
        (PackerView { columns: pk.columns.update(c1, r.0), ..pk }, Some((r.1.unwrap().0, c1, r.1.unwrap().1)))
    } else {
        let c2 = growing_column(pk, width, height, 0);
        if c2 >= 0 {
            let r = column_allocate_in_new_shelf(pk.columns[c2], width, height);
            (PackerView { columns: pk.columns.update(c2, r.0), ..pk }, Some((r.1, c2, 0)))
        } else if new_column_width(pk, width) <= pk.width - pk.allocated_width {
            (
                PackerView {
                    allocated_width: pk.allocated_width + new_column_width(pk, width),
                    columns: pk.columns.push(started_column(pk, width, height)),
                    ..pk
                },
                Some((0, pk.columns.len() as int, 0)),
            )
        } else {
            (pk, None)
        }
    }
}

/// Handing out `width` by `height` does not panic: the indices and offsets
/// involved fit their fields, and the column chosen for a new shelf has not
/// grown past the texture's height.
pub open spec fn packer_allocate_safe(pk: PackerView, width: int, height: int) -> bool {
    let c1 = reusing_column(pk, width, height, 0);
    let c2 = growing_column(pk, width, height, 0);
    if c1 >= 0 {
        column_allocate_safe(pk.columns[c1], width, height, c1)
    } else if c2 >= 0 {
        &&& pk.columns[c2].allocated_height <= pk.height
        &&& column_new_shelf_safe(pk.columns[c2], width, height, c2)
    } else {
        new_column_width(pk, width) <= pk.width - pk.allocated_width ==> pk.columns.len() <= u16::MAX
    }
}

/// Where the piece named by `shelf`, `column` and `offset` starts in the
/// texture.
pub open spec fn allocation_origin(pk: PackerView, shelf: int, column: int, offset: int) -> (int, int) {
    (pk.columns[column].x + offset, pk.columns[column].shelves[shelf].y)
}

/// The x coordinate of the piece handed out for a request fits in a `u32`.
pub open spec fn packer_allocate_origin_fits(pk: PackerView, width: int, height: int) -> bool {
    let r = packer_allocate(pk, width, height);
    r.1 matches Some(t) ==> allocation_origin(r.0, t.0, t.1, t.2).0 <= u32::MAX
}

/// The index of the first run of `allocations`, from `q` on, that starts at
/// `offset`, or -1.
pub open spec fn first_with_offset(allocations: Seq<AllocationView>, offset: int, q: int) -> int
    decreases allocations.len() - q,
{
    if q < 0 || q >= allocations.len() {
        -1
    } else if allocations[q].offset == offset {
        q
    } else {
        first_with_offset(allocations, offset, q + 1)
    }
}

/// The run that freeing `id` releases: the first run of its shelf starting
/// at its offset.
pub open spec fn free_target(pk: PackerView, id: AllocationId) -> int {
    first_with_offset(pk.columns[id.column as int].shelves[id.shelf as int].allocations, id.offset as int, 0)
}

/// Freeing `id` does not panic: it names a column, a shelf of it, and a
/// handed-out run whose index fits in a `u16`.
pub open spec fn packer_free_ok(pk: PackerView, id: AllocationId) -> bool {
    &&& id.column < pk.columns.len()
    &&& id.shelf < pk.columns[id.column as int].shelves.len()
    &&& free_target(pk, id) >= 0
    &&& pk.columns[id.column as int].shelves[id.shelf as int].allocations[free_target(pk, id)].allocated
    &&& free_target(pk, id) <= u16::MAX
}

/// The shelf after the run at index `i` is freed: the run is marked free and
/// its index is appended to the free list.
pub open spec fn shelf_release(s: ShelfView, i: int) -> ShelfView {
    ShelfView {
        allocations: s.allocations.update(i, AllocationView { allocated: false, ..s.allocations[i] }),
        free_list: s.free_list.push(i),
        ..s
    }
}

/// The packer after `id` is freed.
pub open spec fn packer_free(pk: PackerView, id: AllocationId) -> PackerView {
    let c = pk.columns[id.column as int];
    let s = c.shelves[id.shelf as int];
    PackerView {
        columns: pk.columns.update(
            id.column as int,
            ColumnView { shelves: c.shelves.update(id.shelf as int, shelf_release(s, free_target(pk, id))), ..c },
        ),
        ..pk
    }
}

/// The area handed out by the first `n` runs of a shelf `height` tall.
pub open spec fn runs_area(allocations: Seq<AllocationView>, height: int, n: int) -> int
    decreases n,
{
    if n <= 0 {
        0
    } else {
        runs_area(allocations, height, n - 1) + if allocations[n - 1].allocated {
            allocations[n - 1].length * height
        } else {
            0
        }
    }
}

/// The area handed out by the first `n` shelves.
pub open spec fn shelves_area(shelves: Seq<ShelfView>, n: int) -> int
    decreases n,
{
    if n <= 0 {
        0
    } else {
        shelves_area(shelves, n - 1) + runs_area(
            shelves[n - 1].allocations,
            shelves[n - 1].height,
            shelves[n - 1].allocations.len() as int,
        )
    }
}

/// The area handed out by the first `n` columns.
pub open spec fn columns_area(columns: Seq<ColumnView>, n: int) -> int
    decreases n,
{
    if n <= 0 {
        0
    } else {
        columns_area(columns, n - 1) + shelves_area(
            columns[n - 1].shelves,
            columns[n - 1].shelves.len() as int,
        )
    }
}

/// The area handed out by the whole packer: each handed-out run's length times
/// the height of its shelf.
pub open spec fn packer_area(pk: PackerView) -> int {
    columns_area(pk.columns, pk.columns.len() as int)
}

/// The area one run contributes in a shelf `height` tall.
pub open spec fn run_area(run: AllocationView, height: int) -> int {
    if run.allocated {
        run.length * height
    } else {
        0
    }
}

/// The area a shelf hands out.
pub open spec fn shelf_area(shelf: ShelfView) -> int {
    runs_area(shelf.allocations, shelf.height, shelf.allocations.len() as int)
}

/// Replacing one run changes the area of the runs by the difference.
proof fn lemma_runs_area_update(allocations: Seq<AllocationView>, height: int, i: int, n: int, run: AllocationView)
    requires
        0 <= i < allocations.len(),
        0 <= n <= allocations.len(),
    ensures
        runs_area(allocations.update(i, run), height, n) == runs_area(allocations, height, n) + if i < n {
            run_area(run, height) - run_area(allocations[i], height)
        } else {
            0
        },
    decreases n,
{
    if n > 0 {
        lemma_runs_area_update(allocations, height, i, n - 1, run);
    }
}

/// Replacing one shelf changes the area of the shelves by the difference.
proof fn lemma_shelves_area_update(shelves: Seq<ShelfView>, j: int, n: int, shelf: ShelfView)
    requires
        0 <= j < shelves.len(),
        0 <= n <= shelves.len(),
    ensures
        shelves_area(shelves.update(j, shelf), n) == shelves_area(shelves, n) + if j < n {
            shelf_area(shelf) - shelf_area(shelves[j])
        } else {
            0
        },
    decreases n,
{
    if n > 0 {
        lemma_shelves_area_update(shelves, j, n - 1, shelf);
    }
}

/// Replacing one column changes the area of the columns by the difference.
proof fn lemma_columns_area_update(columns: Seq<ColumnView>, k: int, n: int, column: ColumnView)
    requires
        0 <= k < columns.len(),
        0 <= n <= columns.len(),
    ensures
        columns_area(columns.update(k, column), n) == columns_area(columns, n) + if k < n {
            shelves_area(column.shelves, column.shelves.len() as int) - shelves_area(
                columns[k].shelves,
                columns[k].shelves.len() as int,
            )
        } else {
            0
        },
    decreases n,
{
    if n > 0 {
        lemma_columns_area_update(columns, k, n - 1, column);
    }
}

/// Freeing takes the area of the freed run off the area handed out: its
/// length times its shelf's height. (The run is as long as the piece it was
/// handed out for, unless that piece reused a longer free run.)
pub proof fn lemma_free_takes_run_area(pk: PackerView, id: AllocationId)
    requires
        packer_free_ok(pk, id),
    ensures
        ({
            let shelf = pk.columns[id.column as int].shelves[id.shelf as int];
            let run = shelf.allocations[free_target(pk, id)];
            packer_area(packer_free(pk, id)) == packer_area(pk) - run.length * shelf.height
        }),
{
    let c = pk.columns[id.column as int];
    let shelf = c.shelves[id.shelf as int];
    let i = free_target(pk, id);
    lemma_first_with_offset_range(shelf.allocations, id.offset as int, 0);
    let run = shelf.allocations[i];
    let released = shelf_release(shelf, i);
    assert(released.allocations == shelf.allocations.update(i, AllocationView { allocated: false, ..run }));
    lemma_runs_area_update(
        shelf.allocations,
        shelf.height,
        i,
        shelf.allocations.len() as int,
        AllocationView { allocated: false, ..run },
    );
    assert(shelf_area(released) == shelf_area(shelf) - run.length * shelf.height);
    let column = ColumnView { shelves: c.shelves.update(id.shelf as int, released), ..c };
    lemma_shelves_area_update(c.shelves, id.shelf as int, c.shelves.len() as int, released);
    lemma_columns_area_update(pk.columns, id.column as int, pk.columns.len() as int, column);
}

/// The shelf and column handed out for a request exist in the new packer.
pub proof fn lemma_allocate_names_existing(pk: PackerView, width: int, height: int)
    requires
        packer_wf(pk),
    ensures
        packer_allocate(pk, width, height).1 matches Some(t) ==> {
            let pk1 = packer_allocate(pk, width, height).0;
            &&& 0 <= t.1 < pk1.columns.len()
            &&& 0 <= t.0 < pk1.columns[t.1].shelves.len()
        },
{
    let c1 = reusing_column(pk, width, height, 0);
    lemma_reusing_column_range(pk, width, height, 0);
    lemma_growing_column_range(pk, width, height, 0);
    let pk1 = packer_allocate(pk, width, height).0;
    if c1 >= 0 {
        let c = pk.columns[c1];
        lemma_column_candidate_range(c, width, height, 0);
        assert(column_wf(c));
        let p = column_candidate(c, width, height, 0);
        let i = c.shelves_by_height[p];
        assert(0 <= i < c.shelves.len());
        assert(pk1.columns[c1].shelves.len() == c.shelves.len());
    } else {
        let c2 = growing_column(pk, width, height, 0);
        if c2 >= 0 {
            assert(pk1.columns[c2].shelves.len() == pk.columns[c2].shelves.len() + 1);
        } else if new_column_width(pk, width) <= pk.width - pk.allocated_width {
            assert(pk1.columns[pk.columns.len() as int] == started_column(pk, width, height));
            assert(started_column(pk, width, height).shelves.len() == 1);
        }
    }
}

proof fn lemma_reusing_column_range(pk: PackerView, width: int, height: int, ci: int)
    ensures
        reusing_column(pk, width, height, ci) == -1 || (ci <= reusing_column(pk, width, height, ci) < pk.columns.len()),
        reusing_column(pk, width, height, ci) >= 0 ==> {
            let r = reusing_column(pk, width, height, ci);
            width <= pk.columns[r].width && column_candidate(pk.columns[r], width, height, 0) >= 0
        },
    decreases pk.columns.len() - ci,
{
    if 0 <= ci < pk.columns.len() {
        lemma_reusing_column_range(pk, width, height, ci + 1);
    }
}

proof fn lemma_growing_column_range(pk: PackerView, width: int, height: int, ci: int)
    ensures
        growing_column(pk, width, height, ci) == -1 || (ci <= growing_column(pk, width, height, ci) < pk.columns.len()),
        growing_column(pk, width, height, ci) >= 0 ==> {
            let r = growing_column(pk, width, height, ci);
            width <= pk.columns[r].width && (pk.columns[r].allocated_height > pk.height || pk.height
                - pk.columns[r].allocated_height >= height)
        },
    decreases pk.columns.len() - ci,
{
    if 0 <= ci < pk.columns.len() {
        lemma_growing_column_range(pk, width, height, ci + 1);
    }
}

proof fn lemma_column_candidate_range(c: ColumnView, width: int, height: int, p: int)
    ensures
        column_candidate(c, width, height, p) == -1 || (p <= column_candidate(c, width, height, p) < c.shelves_by_height.len()),
    decreases c.shelves_by_height.len() - p,
{
    if 0 <= p < c.shelves_by_height.len() {
        lemma_column_candidate_range(c, width, height, p + 1);
    }
}

impl TexturePacker {
    /// Returns an empty packer for a texture of `size`, whose columns are at
    /// least `minimum_column_width` wide.
    pub fn new(size: Size<UPixels>, minimum_column_width: u16) -> (r: Self)
        ensures
            r@ == (PackerView {
                width: size.width.0 as int,
                height: size.height.0 as int,
                allocated_width: 0,
                minimum_column_width: minimum_column_width as int,
                columns: Seq::empty(),
            }),
            packer_wf(r@),
    {
        let r = Self { size, allocated_width: 0, minimum_column_width, columns: Vec::new() };
        assert(r@.columns =~= Seq::empty());
        r
    }

    /// Hands out `area` and returns where it was placed in the texture, or
    /// `None` when the texture has no room for it.
    ///
    /// Each dimension of `area` must fit in a `u16`; a larger one panics.
    pub fn allocate(&mut self, area: Size<UPixels>) -> (r: Option<TextureAllocation>)
        requires
            packer_wf(old(self)@),
            area.width.0 <= u16::MAX,
            area.height.0 <= u16::MAX,
            packer_allocate_safe(old(self)@, area.width.0 as int, area.height.0 as int),
            packer_allocate_origin_fits(old(self)@, area.width.0 as int, area.height.0 as int),
        ensures
            packer_wf(final(self)@),
            final(self)@ == packer_allocate(old(self)@, area.width.0 as int, area.height.0 as int).0,
            match r {
                Some(t) => {
                    let id = t.allocation;
                    let origin = allocation_origin(final(self)@, id.shelf as int, id.column as int, id.offset as int);
                    &&& packer_allocate(old(self)@, area.width.0 as int, area.height.0 as int).1 == Some(
                        (id.shelf as int, id.column as int, id.offset as int),
                    )
                    &&& t.rect.origin.x.0 as int == origin.0
                    &&& t.rect.origin.y.0 as int == origin.1
                    &&& t.rect.size == area
                },
                None => packer_allocate(old(self)@, area.width.0 as int, area.height.0 as int).1 is None,
            },
    {
        let allocation = self.allocate_area(Size { width: area.width.0 as u16, height: area.height.0 as u16 });
        match allocation {
            Some(allocation) => {
                proof {
                    lemma_allocate_names_existing(old(self)@, area.width.0 as int, area.height.0 as int);
                }
                let origin = self.allocation_origin(allocation);
                Some(TextureAllocation { allocation, rect: Rect::new(origin, area) })
            },
            None => None,
        }
    }

    fn allocate_area(&mut self, area: Size<u16>) -> (r: Option<AllocationId>)
        requires
            packer_wf(old(self)@),
            packer_allocate_safe(old(self)@, area.width as int, area.height as int),
        ensures
            packer_wf(final(self)@),
            final(self)@ == packer_allocate(old(self)@, area.width as int, area.height as int).0,
            match r {
                Some(id) => packer_allocate(old(self)@, area.width as int, area.height as int).1 == Some(
                    (id.shelf as int, id.column as int, id.offset as int),
                ),
                None => packer_allocate(old(self)@, area.width as int, area.height as int).1 is None,
            },
    {
        let ghost pk = self@;
        let len = self.columns.len();
        let mut column_index: usize = 0;
        while column_index < len
            invariant
                pk == old(self)@,
                self@ == pk,
                packer_wf(pk),
                packer_allocate_safe(pk, area.width as int, area.height as int),
                len == pk.columns.len(),
                column_index <= len,
                reusing_column(pk, area.width as int, area.height as int, 0) == reusing_column(
                    pk,
                    area.width as int,
                    area.height as int,
                    column_index as int,
                ),
            decreases len - column_index,
        {
            let ghost c0 = pk.columns[column_index as int];
            proof {
                assert(self.columns@[column_index as int]@ == c0);
            }
            if area.width <= self.columns[column_index].width {
                let attempt = self.columns[column_index].allocate(area, column_index);
                match attempt {
                    Some(allocation) => {
                        proof {
                            let r = column_allocate(c0, area.width as int, area.height as int);
                            assert(self@.columns =~= pk.columns.update(column_index as int, r.0));
                        }
                        return Some(allocation);
                    },
                    None => {
                        proof {
                            assert(self@.columns =~= pk.columns);
                        }
                    },
                }
            }
            column_index = column_index + 1;
        }
        let mut column_index: usize = 0;
        while column_index < len
            invariant
                pk == old(self)@,
                self@ == pk,
                packer_wf(pk),
                packer_allocate_safe(pk, area.width as int, area.height as int),
                reusing_column(pk, area.width as int, area.height as int, 0) < 0,
                len == pk.columns.len(),
                column_index <= len,
                growing_column(pk, area.width as int, area.height as int, 0) == growing_column(
                    pk,
                    area.width as int,
                    area.height as int,
                    column_index as int,
                ),
            decreases len - column_index,
        {
            let ghost c0 = pk.columns[column_index as int];
            proof {
                assert(self.columns@[column_index as int]@ == c0);
                self.columns@[column_index as int].lemma_view_in_range();
            }
            if area.width <= self.columns[column_index].width {
                let remaining_height = self.size.height.0 - self.columns[column_index].allocated_height;
                if remaining_height >= area.height as u32 {
                    let allocation = self.columns[column_index].allocate_in_new_shelf(area, column_index);
                    proof {
                        let r = column_allocate_in_new_shelf(c0, area.width as int, area.height as int);
                        assert(self@.columns =~= pk.columns.update(column_index as int, r.0));
                    }
                    return Some(allocation);
                }
            }
            column_index = column_index + 1;
        }
        let width = if area.width < self.minimum_column_width {
            self.minimum_column_width
        } else {
            area.width
        };
        let remaining_width = self.size.width.0 - self.allocated_width;
        if width as u32 <= remaining_width {
            let mut column = Column::new(self.allocated_width, width);
            self.allocated_width = self.allocated_width + width as u32;
            let allocation = column.allocate_in_new_shelf(area, self.columns.len());
            self.columns.push(column);
            proof {
                assert(self@.columns =~= pk.columns.push(started_column(pk, area.width as int, area.height as int)));
            }
            return Some(allocation);
        }
        None
    }

    fn allocation_origin(&self, allocation: AllocationId) -> (r: Point<UPixels>)
        requires
            allocation.column < self@.columns.len(),
            allocation.shelf < self@.columns[allocation.column as int].shelves.len(),
            allocation_origin(self@, allocation.shelf as int, allocation.column as int, allocation.offset as int).0 <= u32::MAX,
        ensures
            r.x.0 as int == allocation_origin(self@, allocation.shelf as int, allocation.column as int, allocation.offset as int).0,
            r.y.0 as int == allocation_origin(self@, allocation.shelf as int, allocation.column as int, allocation.offset as int).1,
    {
        let col = &self.columns[allocation.column as usize];
        let shelf = &col.shelves[allocation.shelf as usize];
        Point { x: UPixels(col.x + allocation.offset as u32), y: UPixels(shelf.y) }
    }

    /// Frees the piece that `id` names so that its space can be handed out
    /// again.
    ///
    /// Panics when `id` names no handed-out piece.
    pub fn free(&mut self, id: AllocationId)
        requires
            packer_wf(old(self)@),
            packer_free_ok(old(self)@, id),
        ensures
            packer_wf(final(self)@),
            final(self)@ == packer_free(old(self)@, id),
    {
        let ghost pk = self@;
        proof {
            assert(self.columns@[id.column as int]@ == pk.columns[id.column as int]);
        }
        self.columns[id.column as usize].release(id.shelf, id.offset);
        proof {
            let c = pk.columns[id.column as int];
            let c1 = ColumnView {
                shelves: c.shelves.update(id.shelf as int, shelf_release(c.shelves[id.shelf as int], free_target(pk, id))),
                ..c
            };
            assert(self@.columns =~= pk.columns.update(id.column as int, c1));
        }
    }

    /// The area handed out and not freed: each handed-out run's length times
    /// the height of its shelf, summed.
    pub fn allocated(&self) -> (r: UPixels)
        requires
            packer_area(self@) <= u32::MAX,
        ensures
            r.0 as int == packer_area(self@),
    {
        let ghost pk = self@;
        proof {
            self.lemma_view_nonnegative();
        }
        let mut allocated: u32 = 0;
        let ncols = self.columns.len();
        let mut ci: usize = 0;
        while ci < ncols
            invariant
                pk == self@,
                packer_nonnegative(pk),
                packer_area(pk) <= u32::MAX,
                ncols == pk.columns.len(),
                ci <= ncols,
                allocated as int == columns_area(pk.columns, ci as int),
            decreases ncols - ci,
        {
            let col = &self.columns[ci];
            let ghost c = pk.columns[ci as int];
            proof {
                assert(col@ == c);
                lemma_columns_area_mono(pk.columns, ci as int + 1, ncols as int);
            }
            let nshelves = col.shelves.len();
            let mut si: usize = 0;
            while si < nshelves
                invariant
                    pk == self@,
                    c == pk.columns[ci as int],
                    col@ == c,
                    ci < ncols,
                    ncols == pk.columns.len(),
                    packer_nonnegative(pk),
                    columns_area(pk.columns, ci as int + 1) <= u32::MAX,
                    nshelves == c.shelves.len(),
                    si <= nshelves,
                    allocated as int == columns_area(pk.columns, ci as int) + shelves_area(c.shelves, si as int),
                decreases nshelves - si,
            {
                let shelf = &col.shelves[si];
                let ghost sv = c.shelves[si as int];
                proof {
                    assert(shelf@ == sv);
                    lemma_shelves_area_mono(c.shelves, si as int + 1, nshelves as int);
                    assert(shelves_area(c.shelves, nshelves as int) + columns_area(pk.columns, ci as int) == columns_area(pk.columns, ci as int + 1));
                    shelf.lemma_view_in_range();
                }
                let nruns = shelf.allocations.len();
                let mut ai: usize = 0;
                while ai < nruns
                    invariant
                        c == pk.columns[ci as int],
                        sv == c.shelves[si as int],
                        shelf@ == sv,
                        si < nshelves,
                        nshelves == c.shelves.len(),
                        packer_nonnegative(pk),
                        0 <= sv.height <= u16::MAX,
                        columns_area(pk.columns, ci as int) + shelves_area(c.shelves, si as int + 1) <= u32::MAX,
                        nruns == sv.allocations.len(),
                        ai <= nruns,
                        allocated as int == columns_area(pk.columns, ci as int) + shelves_area(c.shelves, si as int)
                            + runs_area(sv.allocations, sv.height, ai as int),
                    decreases nruns - ai,
                {
                    let allocation = &shelf.allocations[ai];
                    proof {
                        assert(allocation@ == sv.allocations[ai as int]);
                        allocation.lemma_view_in_range();
                        lemma_runs_area_mono(sv.allocations, sv.height, ai as int + 1, nruns as int);
                    }
                    if allocation.allocated() {
                        proof {
                            assert(allocation.length as int * shelf.height as int <= 0xFFFF * 0xFFFF) by (nonlinear_arith)
                                requires allocation.length <= 0xFFFF, shelf.height <= 0xFFFF;
                        }
                        allocated = allocated + allocation.length as u32 * shelf.height as u32;
                    }
                    ai = ai + 1;
                }
                si = si + 1;
            }
            ci = ci + 1;
        }
        UPixels(allocated)
    }
}

/// Every shelf height and run length of the packer is non-negative.
pub open spec fn packer_nonnegative(pk: PackerView) -> bool {
    forall|c: int, s: int|
        0 <= c < pk.columns.len() && 0 <= s < pk.columns[c].shelves.len() ==> shelf_nonnegative(#[trigger] pk.columns[c].shelves[s])
}

/// The shelf's height and every run length are non-negative.
pub open spec fn shelf_nonnegative(s: ShelfView) -> bool {
    &&& s.height >= 0
    &&& forall|i: int| 0 <= i < s.allocations.len() ==> #[trigger] s.allocations[i].length >= 0
}

impl TexturePacker {
    proof fn lemma_view_nonnegative(&self)
        ensures
            packer_nonnegative(self@),
    {
        assert forall|c: int, s: int|
            0 <= c < self@.columns.len() && 0 <= s < self@.columns[c].shelves.len() implies shelf_nonnegative(#[trigger] self@.columns[c].shelves[s]) by {
            let shelf = self.columns@[c].shelves@[s];
            shelf.lemma_view_in_range();
            assert(self@.columns[c].shelves[s] == shelf@);
        }
    }
}

proof fn lemma_runs_area_mono(runs: Seq<AllocationView>, height: int, a: int, b: int)
    requires
        0 <= a <= b <= runs.len(),
        height >= 0,
        forall|i: int| 0 <= i < runs.len() ==> #[trigger] runs[i].length >= 0,
    ensures
        0 <= runs_area(runs, height, a) <= runs_area(runs, height, b),
    decreases b,
{
    if b > a {
        lemma_runs_area_mono(runs, height, a, b - 1);
        assert(runs[b - 1].length * height >= 0) by (nonlinear_arith)
            requires runs[b - 1].length >= 0, height >= 0;
    } else if a > 0 {
        lemma_runs_area_mono(runs, height, a - 1, a - 1);
        assert(runs[a - 1].length * height >= 0) by (nonlinear_arith)
            requires runs[a - 1].length >= 0, height >= 0;
    }
}

proof fn lemma_shelves_area_mono(shelves: Seq<ShelfView>, a: int, b: int)
    requires
        0 <= a <= b <= shelves.len(),
        forall|i: int| 0 <= i < shelves.len() ==> shelf_nonnegative(#[trigger] shelves[i]),
    ensures
        0 <= shelves_area(shelves, a) <= shelves_area(shelves, b),
    decreases b,
{
    if b > a {
        lemma_shelves_area_mono(shelves, a, b - 1);
        let s = shelves[b - 1];
        assert(shelf_nonnegative(s));
        lemma_runs_area_mono(s.allocations, s.height, 0, s.allocations.len() as int);
    } else if a > 0 {
        lemma_shelves_area_mono(shelves, a - 1, a - 1);
        let s = shelves[a - 1];
        assert(shelf_nonnegative(s));
        lemma_runs_area_mono(s.allocations, s.height, 0, s.allocations.len() as int);
    }
}

proof fn lemma_columns_area_mono(columns: Seq<ColumnView>, a: int, b: int)
    requires
        0 <= a <= b <= columns.len(),
        packer_nonnegative(PackerView { width: 0, height: 0, allocated_width: 0, minimum_column_width: 0, columns }),
    ensures
        0 <= columns_area(columns, a) <= columns_area(columns, b),
    decreases b,
{
    let pk = PackerView { width: 0, height: 0, allocated_width: 0, minimum_column_width: 0, columns };
    if b > a {
        lemma_columns_area_mono(columns, a, b - 1);
        let c = columns[b - 1];
        assert forall|i: int| 0 <= i < c.shelves.len() implies shelf_nonnegative(#[trigger] c.shelves[i]) by {
            assert(shelf_nonnegative(pk.columns[b - 1].shelves[i]));
        }
        lemma_shelves_area_mono(c.shelves, 0, c.shelves.len() as int);
    } else if a > 0 {
        lemma_columns_area_mono(columns, a - 1, a - 1);
        let c = columns[a - 1];
        assert forall|i: int| 0 <= i < c.shelves.len() implies shelf_nonnegative(#[trigger] c.shelves[i]) by {
            assert(shelf_nonnegative(pk.columns[a - 1].shelves[i]));
        }
        lemma_shelves_area_mono(c.shelves, 0, c.shelves.len() as int);
    }
}

/// The sum of the first `n` entries of `s`.
pub open spec fn prefix_sum(s: Seq<int>, n: int) -> int
    decreases n,
{
    if n <= 0 {
        0
    } else {
        prefix_sum(s, n - 1) + s[n - 1]
    }
}

/// With non-negative entries, a later prefix is at least an earlier prefix
/// plus the entry that ends it.
proof fn lemma_prefix_sum_mono(s: Seq<int>, a: int, b: int)
    requires
        0 <= a < b <= s.len(),
        forall|i: int| 0 <= i < s.len() ==> s[i] >= 0,
    ensures
        prefix_sum(s, a) + s[a] <= prefix_sum(s, b),
    decreases b - a,
{
    if b > a + 1 {
        lemma_prefix_sum_mono(s, a, b - 1);
    }
}

/// The lengths of the runs.
pub open spec fn run_lengths(runs: Seq<AllocationView>) -> Seq<int> {
    runs.map_values(|a: AllocationView| a.length)
}

/// The heights of the shelves.
pub open spec fn shelf_heights(shelves: Seq<ShelfView>) -> Seq<int> {
    shelves.map_values(|s: ShelfView| s.height)
}

/// The widths of the columns.
pub open spec fn column_widths(columns: Seq<ColumnView>) -> Seq<int> {
    columns.map_values(|c: ColumnView| c.width)
}

/// The shelf's runs lie side by side from its start, without gaps or overlap,
/// up to its used width; its free list names free runs, each once.
pub open spec fn shelf_tidy(s: ShelfView) -> bool {
    &&& forall|i: int| 0 <= i < s.allocations.len() ==> #[trigger] s.allocations[i].length >= 0
    &&& forall|i: int| 0 <= i < s.allocations.len() ==> #[trigger] s.allocations[i].offset == prefix_sum(run_lengths(s.allocations), i)
    &&& prefix_sum(run_lengths(s.allocations), s.allocations.len() as int) == s.allocated_width
    &&& forall|k: int| 0 <= k < s.free_list.len() ==> !s.allocations[#[trigger] s.free_list[k]].allocated
    &&& forall|k1: int, k2: int| 0 <= k1 < k2 < s.free_list.len() ==> s.free_list[k1] != s.free_list[k2]
}

/// The column's shelves are tidy and stacked from its top without gaps or
/// overlap, up to its used height.
pub open spec fn column_tidy(c: ColumnView) -> bool {
    &&& forall|j: int| 0 <= j < c.shelves.len() ==> shelf_tidy(#[trigger] c.shelves[j])
    &&& forall|j: int| 0 <= j < c.shelves.len() ==> #[trigger] c.shelves[j].height >= 0
    &&& forall|j: int| 0 <= j < c.shelves.len() ==> #[trigger] c.shelves[j].y == prefix_sum(shelf_heights(c.shelves), j)
    &&& prefix_sum(shelf_heights(c.shelves), c.shelves.len() as int) == c.allocated_height
}

/// The packer's columns are tidy and lie side by side from the texture's left
/// edge without gaps or overlap, up to its used width.
pub open spec fn packer_tidy(pk: PackerView) -> bool {
    &&& forall|c: int| 0 <= c < pk.columns.len() ==> column_tidy(#[trigger] pk.columns[c])
    &&& forall|c: int| 0 <= c < pk.columns.len() ==> #[trigger] pk.columns[c].width >= 0
    &&& forall|c: int| 0 <= c < pk.columns.len() ==> #[trigger] pk.columns[c].x == prefix_sum(column_widths(pk.columns), c)
    &&& prefix_sum(column_widths(pk.columns), pk.columns.len() as int) == pk.allocated_width
}

/// Names an existing run: column `c`, shelf `j`, run `i`.
pub open spec fn run_exists(pk: PackerView, c: int, j: int, i: int) -> bool {
    &&& 0 <= c < pk.columns.len()
    &&& 0 <= j < pk.columns[c].shelves.len()
    &&& 0 <= i < pk.columns[c].shelves[j].allocations.len()
}

/// The half-open ranges `[a1, e1)` and `[a2, e2)` share a point.
pub open spec fn ranges_overlap(a1: int, e1: int, a2: int, e2: int) -> bool {
    a1 < e1 && a2 < e2 && a1 < e2 && a2 < e1
}

/// The area of the texture that run `i` of shelf `j` of column `c` stands
/// for: its stretch of the shelf, the shelf's full height.
pub open spec fn run_cell(pk: PackerView, c: int, j: int, i: int) -> (int, int, int, int) {
    let col = pk.columns[c];
    let shelf = col.shelves[j];
    let run = shelf.allocations[i];
    (col.x + run.offset, col.x + run.offset + run.length, shelf.y, shelf.y + shelf.height)
}

/// The areas of two runs share a point.
pub open spec fn cells_overlap(a: (int, int, int, int), b: (int, int, int, int)) -> bool {
    ranges_overlap(a.0, a.1, b.0, b.1) && ranges_overlap(a.2, a.3, b.2, b.3)
}

/// In a tidy packer, the areas of two different runs never overlap, so pieces
/// handed out in different runs never overlap.
pub proof fn lemma_tidy_cells_disjoint(pk: PackerView, c1: int, j1: int, i1: int, c2: int, j2: int, i2: int)
    requires
        packer_wf(pk),
        packer_tidy(pk),
        run_exists(pk, c1, j1, i1),
        run_exists(pk, c2, j2, i2),
        (c1, j1, i1) != (c2, j2, i2),
    ensures
        !cells_overlap(run_cell(pk, c1, j1, i1), run_cell(pk, c2, j2, i2)),
{
    lemma_run_within_column(pk, c1, j1, i1);
    lemma_run_within_column(pk, c2, j2, i2);
    let widths = column_widths(pk.columns);
    if c1 != c2 {
        if c1 < c2 {
            lemma_prefix_sum_mono(widths, c1, c2);
        } else {
            lemma_prefix_sum_mono(widths, c2, c1);
        }
    } else {
        let col = pk.columns[c1];
        assert(column_tidy(col));
        let heights = shelf_heights(col.shelves);
        if j1 != j2 {
            if j1 < j2 {
                lemma_prefix_sum_mono(heights, j1, j2);
            } else {
                lemma_prefix_sum_mono(heights, j2, j1);
            }
        } else {
            let shelf = col.shelves[j1];
            assert(shelf_tidy(shelf));
            let lengths = run_lengths(shelf.allocations);
            if i1 < i2 {
                lemma_prefix_sum_mono(lengths, i1, i2);
            } else {
                lemma_prefix_sum_mono(lengths, i2, i1);
            }
        }
    }
}

/// In a tidy, consistent packer a run lies within its column's width.
proof fn lemma_run_within_column(pk: PackerView, c: int, j: int, i: int)
    requires
        packer_wf(pk),
        packer_tidy(pk),
        run_exists(pk, c, j, i),
    ensures
        0 <= pk.columns[c].shelves[j].allocations[i].offset,
        pk.columns[c].shelves[j].allocations[i].offset + pk.columns[c].shelves[j].allocations[i].length
            <= pk.columns[c].width,
{
    let col = pk.columns[c];
    assert(column_tidy(col));
    assert(column_wf(col));
    let shelf = col.shelves[j];
    assert(shelf_tidy(shelf));
    assert(shelf_wf(shelf, col.width));
    let lengths = run_lengths(shelf.allocations);
    let n = shelf.allocations.len() as int;
    lemma_prefix_sum_nonneg(lengths, i);
    if i + 1 < n {
        lemma_prefix_sum_mono(lengths, i, n);
    } else {
        assert(prefix_sum(lengths, n) == prefix_sum(lengths, i) + lengths[i]);
    }
}

proof fn lemma_prefix_sum_nonneg(s: Seq<int>, n: int)
    requires
        n <= s.len(),
        forall|i: int| 0 <= i < s.len() ==> s[i] >= 0,
    ensures
        prefix_sum(s, n) >= 0,
    decreases n,
{
    if n > 0 {
        lemma_prefix_sum_nonneg(s, n - 1);
    }
}

/// Sequences that agree on their first `n` entries agree on their sum.
proof fn lemma_prefix_sum_agree(s1: Seq<int>, s2: Seq<int>, n: int)
    requires
        n <= s1.len(),
        n <= s2.len(),
        forall|i: int| 0 <= i < n ==> s1[i] == s2[i],
    ensures
        prefix_sum(s1, n) == prefix_sum(s2, n),
    decreases n,
{
    if n > 0 {
        lemma_prefix_sum_agree(s1, s2, n - 1);
    }
}

/// Handing out in a shelf reuses a run longer than the request, which leaves
/// the shelf's runs overlapping.
pub open spec fn shelf_splits(s: ShelfView, width: int, column_width: int) -> bool {
    &&& !shelf_has_room(s, width, column_width)
    &&& reused_slot(s, width) >= 0
    &&& s.allocations[s.free_list[reused_slot(s, width)]].length > width
}

/// The request is served by reusing a free run longer than the request.
pub open spec fn packer_allocate_splits(pk: PackerView, width: int, height: int) -> bool {
    let c1 = reusing_column(pk, width, height, 0);
    c1 >= 0 && {
        let c = pk.columns[c1];
        shelf_splits(c.shelves[c.shelves_by_height[column_candidate(c, width, height, 0)]], width, c.width)
    }
}

proof fn lemma_last_fitting_slot_range(s: ShelfView, width: int, n: int)
    requires
        n <= s.free_list.len(),
    ensures
        last_fitting_slot(s, width, n) == -1 || (0 <= last_fitting_slot(s, width, n) < n && free_slot_fits(
            s,
            width,
            last_fitting_slot(s, width, n),
        )),
    decreases n,
{
    if n > 0 {
        lemma_last_fitting_slot_range(s, width, n - 1);
    }
}

/// Handing out without splitting a run keeps a shelf tidy.
proof fn lemma_shelf_allocate_tidy(s: ShelfView, width: int, column_width: int)
    requires
        shelf_tidy(s),
        shelf_wf(s, column_width),
        width >= 0,
        !shelf_splits(s, width, column_width),
    ensures
        shelf_tidy(shelf_allocate(s, width, column_width).0),
        shelf_allocate(s, width, column_width).0.y == s.y,
        shelf_allocate(s, width, column_width).0.height == s.height,
{
    let s1 = shelf_allocate(s, width, column_width).0;
    let n = s.allocations.len() as int;
    if shelf_has_room(s, width, column_width) {
        let l0 = run_lengths(s.allocations);
        let l1 = run_lengths(s1.allocations);
        assert(l1 =~= l0.push(width));
        assert forall|i: int| 0 <= i < s1.allocations.len() implies #[trigger] s1.allocations[i].offset == prefix_sum(
            run_lengths(s1.allocations),
            i,
        ) by {
            lemma_prefix_sum_agree(l0, l1, i);
        }
        lemma_prefix_sum_agree(l0, l1, n);
        assert(prefix_sum(l1, n + 1) == prefix_sum(l1, n) + width);
        assert forall|k: int| 0 <= k < s1.free_list.len() implies !s1.allocations[#[trigger] s1.free_list[k]].allocated by {
            assert(s.allocations[s.free_list[k]] == s1.allocations[s1.free_list[k]]);
        }
    } else {
        let k = reused_slot(s, width);
        lemma_last_fitting_slot_range(s, width, s.free_list.len() as int);
        if k >= 0 {
            let i = s.free_list[k];
            let l0 = run_lengths(s.allocations);
            let l1 = run_lengths(s1.allocations);
            assert(l1 =~= l0);
            assert forall|k2: int| 0 <= k2 < s1.free_list.len() implies !s1.allocations[#[trigger] s1.free_list[k2]].allocated by {
                if k2 < k {
                    assert(s1.free_list[k2] == s.free_list[k2]);
                    assert(s.free_list[k2] != i);
                } else {
                    assert(s1.free_list[k2] == s.free_list[k2 + 1]);
                    assert(s.free_list[k2 + 1] != i);
                }
            }
            assert forall|a: int, b: int| 0 <= a < b < s1.free_list.len() implies s1.free_list[a] != s1.free_list[b] by {
                let a0 = if a < k { a } else { a + 1 };
                let b0 = if b < k { b } else { b + 1 };
                assert(s1.free_list[a] == s.free_list[a0]);
                assert(s1.free_list[b] == s.free_list[b0]);
            }
        }
    }
}

/// A freshly opened shelf with one piece handed out is tidy.
proof fn lemma_started_shelf_tidy(y: int, height: int, width: int)
    requires
        width >= 0,
    ensures
        shelf_tidy(started_shelf(y, height, width)),
{
    let s = started_shelf(y, height, width);
    let l = run_lengths(s.allocations);
    assert(prefix_sum(l, 1) == prefix_sum(l, 0) + width);
}

/// Handing out in an existing shelf without splitting a run keeps a column
/// tidy.
proof fn lemma_column_allocate_tidy(c: ColumnView, width: int, height: int)
    requires
        column_tidy(c),
        column_wf(c),
        width >= 0,
        column_candidate(c, width, height, 0) >= 0 ==> !shelf_splits(
            c.shelves[c.shelves_by_height[column_candidate(c, width, height, 0)]],
            width,
            c.width,
        ),
    ensures
        column_tidy(column_allocate(c, width, height).0),
        column_allocate(c, width, height).0.x == c.x,
        column_allocate(c, width, height).0.width == c.width,
        column_allocate(c, width, height).0.shelves.len() == c.shelves.len(),
{
    let p = column_candidate(c, width, height, 0);
    lemma_column_candidate_range(c, width, height, 0);
    if p >= 0 {
        let i = c.shelves_by_height[p];
        let s = c.shelves[i];
        lemma_shelf_allocate_tidy(s, width, c.width);
        let c1 = column_allocate(c, width, height).0;
        assert(shelf_heights(c1.shelves) =~= shelf_heights(c.shelves));
        assert forall|j: int| 0 <= j < c1.shelves.len() implies shelf_tidy(#[trigger] c1.shelves[j]) by {
            if j != i {
                assert(c1.shelves[j] == c.shelves[j]);
            }
        }
    }
}

/// Opening a shelf keeps a column tidy.
proof fn lemma_column_new_shelf_tidy(c: ColumnView, width: int, height: int)
    requires
        column_tidy(c),
        width >= 0,
        height >= 0,
    ensures
        column_tidy(column_allocate_in_new_shelf(c, width, height).0),
{
    let c1 = column_allocate_in_new_shelf(c, width, height).0;
    let n = c.shelves.len() as int;
    let h0 = shelf_heights(c.shelves);
    let h1 = shelf_heights(c1.shelves);
    assert(h1 =~= h0.push(height));
    lemma_started_shelf_tidy(c.allocated_height, height, width);
    assert forall|j: int| 0 <= j < c1.shelves.len() implies #[trigger] c1.shelves[j].y == prefix_sum(
        shelf_heights(c1.shelves),
        j,
    ) by {
        lemma_prefix_sum_agree(h0, h1, j);
    }
    lemma_prefix_sum_agree(h0, h1, n);
    assert(prefix_sum(h1, n + 1) == prefix_sum(h1, n) + height);
    assert forall|j: int| 0 <= j < c1.shelves.len() implies shelf_tidy(#[trigger] c1.shelves[j]) by {
        if j < n {
            assert(c1.shelves[j] == c.shelves[j]);
        }
    }
}

/// A new packer is tidy.
pub proof fn lemma_new_packer_tidy(width: int, height: int, minimum_column_width: int)
    ensures
        packer_tidy(
            PackerView { width, height, allocated_width: 0, minimum_column_width, columns: Seq::empty() },
        ),
{
}

/// Handing out a request keeps the packer tidy, unless the request is served
/// by reusing a free run longer than it.
pub proof fn lemma_allocate_keeps_tidy(pk: PackerView, width: int, height: int)
    requires
        packer_wf(pk),
        packer_tidy(pk),
        0 <= width,
        0 <= height,
        !packer_allocate_splits(pk, width, height),
    ensures
        packer_tidy(packer_allocate(pk, width, height).0),
{
    let pk1 = packer_allocate(pk, width, height).0;
    let c1 = reusing_column(pk, width, height, 0);
    let c2 = growing_column(pk, width, height, 0);
    lemma_reusing_column_range(pk, width, height, 0);
    lemma_growing_column_range(pk, width, height, 0);
    let w0 = column_widths(pk.columns);
    if c1 >= 0 {
        let c = pk.columns[c1];
        assert(column_wf(c));
        lemma_column_allocate_tidy(c, width, height);
        assert(column_widths(pk1.columns) =~= w0);
        assert forall|ci: int| 0 <= ci < pk1.columns.len() implies column_tidy(#[trigger] pk1.columns[ci]) by {
            if ci != c1 {
                assert(pk1.columns[ci] == pk.columns[ci]);
            }
        }
    } else if c2 >= 0 {
        let c = pk.columns[c2];
        lemma_column_new_shelf_tidy(c, width, height);
        assert(column_widths(pk1.columns) =~= w0);
        assert forall|ci: int| 0 <= ci < pk1.columns.len() implies column_tidy(#[trigger] pk1.columns[ci]) by {
            if ci != c2 {
                assert(pk1.columns[ci] == pk.columns[ci]);
            }
        }
    } else if new_column_width(pk, width) <= pk.width - pk.allocated_width {
        let n = pk.columns.len() as int;
        let cw = new_column_width(pk, width);
        let empty = ColumnView { x: pk.allocated_width, allocated_height: 0, width: cw, shelves: Seq::empty(), shelves_by_height: Seq::empty() };
        assert(shelf_heights(empty.shelves) =~= Seq::<int>::empty());
        lemma_column_new_shelf_tidy(empty, width, height);
        let w1 = column_widths(pk1.columns);
        assert(w1 =~= w0.push(cw));
        assert forall|ci: int| 0 <= ci < pk1.columns.len() implies #[trigger] pk1.columns[ci].x == prefix_sum(
            column_widths(pk1.columns),
            ci,
        ) by {
            lemma_prefix_sum_agree(w0, w1, ci);
        }
        lemma_prefix_sum_agree(w0, w1, n);
        assert(prefix_sum(w1, n + 1) == prefix_sum(w1, n) + cw);
        assert forall|ci: int| 0 <= ci < pk1.columns.len() implies column_tidy(#[trigger] pk1.columns[ci]) by {
            if ci < n {
                assert(pk1.columns[ci] == pk.columns[ci]);
            }
        }
    }
}

/// Freeing keeps the packer tidy.
pub proof fn lemma_free_keeps_tidy(pk: PackerView, id: AllocationId)
    requires
        packer_wf(pk),
        packer_tidy(pk),
        packer_free_ok(pk, id),
    ensures
        packer_tidy(packer_free(pk, id)),
{
    let pk1 = packer_free(pk, id);
    let ci = id.column as int;
    let si = id.shelf as int;
    let c = pk.columns[ci];
    let s = c.shelves[si];
    let t = free_target(pk, id);
    assert(column_tidy(c));
    assert(shelf_tidy(s));
    lemma_first_with_offset_range(s.allocations, id.offset as int, 0);
    let s1 = shelf_release(s, t);
    assert(run_lengths(s1.allocations) =~= run_lengths(s.allocations));
    assert forall|k: int| 0 <= k < s1.free_list.len() implies !s1.allocations[#[trigger] s1.free_list[k]].allocated by {
        if k < s.free_list.len() {
            assert(s1.free_list[k] == s.free_list[k]);
            assert(s.free_list[k] != t);
        }
    }
    assert forall|a: int, b: int| 0 <= a < b < s1.free_list.len() implies s1.free_list[a] != s1.free_list[b] by {
        if b == s.free_list.len() {
            assert(s1.free_list[a] == s.free_list[a]);
        }
    }
    assert(shelf_tidy(s1));
    let c1 = pk1.columns[ci];
    assert(shelf_heights(c1.shelves) =~= shelf_heights(c.shelves));
    assert forall|j: int| 0 <= j < c1.shelves.len() implies shelf_tidy(#[trigger] c1.shelves[j]) by {
        if j != si {
            assert(c1.shelves[j] == c.shelves[j]);
        }
    }
    assert(column_widths(pk1.columns) =~= column_widths(pk.columns));
    assert forall|cj: int| 0 <= cj < pk1.columns.len() implies column_tidy(#[trigger] pk1.columns[cj]) by {
        if cj != ci {
            assert(pk1.columns[cj] == pk.columns[cj]);
        }
    }
}

/// The column's shelves are stacked from its top without gaps or overlap, up
/// to its used height.
pub open spec fn column_stacked(c: ColumnView) -> bool {
    &&& forall|j: int| 0 <= j < c.shelves.len() ==> #[trigger] c.shelves[j].height >= 0
    &&& forall|j: int| 0 <= j < c.shelves.len() ==> #[trigger] c.shelves[j].y == prefix_sum(shelf_heights(c.shelves), j)
    &&& prefix_sum(shelf_heights(c.shelves), c.shelves.len() as int) == c.allocated_height
}

/// The packer's columns lie side by side from the texture's left edge without
/// gaps or overlap, up to its used width, and each column's shelves are
/// stacked. Unlike [`packer_tidy`], this says nothing of the runs inside a
/// shelf.
pub open spec fn packer_laid_out(pk: PackerView) -> bool {
    &&& forall|c: int| 0 <= c < pk.columns.len() ==> column_stacked(#[trigger] pk.columns[c])
    &&& forall|c: int| 0 <= c < pk.columns.len() ==> #[trigger] pk.columns[c].width >= 0
    &&& forall|c: int| 0 <= c < pk.columns.len() ==> #[trigger] pk.columns[c].x == prefix_sum(column_widths(pk.columns), c)
    &&& prefix_sum(column_widths(pk.columns), pk.columns.len() as int) == pk.allocated_width
}

/// Run `i` of shelf `j` of column `c` lies within its column's width.
pub open spec fn run_within_column(pk: PackerView, c: int, j: int, i: int) -> bool {
    let run = pk.columns[c].shelves[j].allocations[i];
    0 <= run.offset && 0 <= run.length && run.offset + run.length <= pk.columns[c].width
}

/// The request is served in shelf `j` of column `c`.
pub open spec fn serves_shelf(pk: PackerView, width: int, height: int, c: int, j: int) -> bool {
    packer_allocate(pk, width, height).1 matches Some(t) && t.1 == c && t.0 == j
}

/// Shelf `j` of column `c` is tidy in `pk`, or `pk` does not have it yet.
pub open spec fn tidy_or_new(pk: PackerView, c: int, j: int) -> bool {
    c < pk.columns.len() && j < pk.columns[c].shelves.len() ==> shelf_tidy(pk.columns[c].shelves[j])
}

/// Shelf `j` of column `c` of `pk1` is tidy where it is new, or where it was
/// tidy in `pk`.
pub open spec fn tidy_where_it_was(pk: PackerView, pk1: PackerView, c: int, j: int) -> bool {
    tidy_or_new(pk, c, j) ==> shelf_tidy(pk1.columns[c].shelves[j])
}

/// A tidy packer is laid out.
pub proof fn lemma_tidy_is_laid_out(pk: PackerView)
    requires
        packer_tidy(pk),
    ensures
        packer_laid_out(pk),
{
    assert forall|c: int| 0 <= c < pk.columns.len() implies column_stacked(#[trigger] pk.columns[c]) by {
        assert(column_tidy(pk.columns[c]));
    }
}

/// Every run of a tidy shelf of a consistent packer lies within its column.
pub proof fn lemma_tidy_shelf_runs_within(pk: PackerView, c: int, j: int, i: int)
    requires
        packer_wf(pk),
        run_exists(pk, c, j, i),
        shelf_tidy(pk.columns[c].shelves[j]),
    ensures
        run_within_column(pk, c, j, i),
{
    let col = pk.columns[c];
    assert(column_wf(col));
    let shelf = col.shelves[j];
    assert(shelf_wf(shelf, col.width));
    let lengths = run_lengths(shelf.allocations);
    let n = shelf.allocations.len() as int;
    lemma_prefix_sum_nonneg(lengths, i);
    if i + 1 < n {
        lemma_prefix_sum_mono(lengths, i, n);
    } else {
        assert(prefix_sum(lengths, n) == prefix_sum(lengths, i) + lengths[i]);
    }
}

/// In a laid-out packer, two different runs that lie within their columns
/// never overlap, where they are in different shelves or in one tidy shelf.
pub proof fn lemma_laid_out_cells_disjoint(pk: PackerView, c1: int, j1: int, i1: int, c2: int, j2: int, i2: int)
    requires
        packer_wf(pk),
        packer_laid_out(pk),
        run_exists(pk, c1, j1, i1),
        run_exists(pk, c2, j2, i2),
        (c1, j1, i1) != (c2, j2, i2),
        run_within_column(pk, c1, j1, i1),
        run_within_column(pk, c2, j2, i2),
        c1 == c2 && j1 == j2 ==> shelf_tidy(pk.columns[c1].shelves[j1]),
    ensures
        !cells_overlap(run_cell(pk, c1, j1, i1), run_cell(pk, c2, j2, i2)),
{
    let widths = column_widths(pk.columns);
    if c1 != c2 {
        if c1 < c2 {
            lemma_prefix_sum_mono(widths, c1, c2);
        } else {
            lemma_prefix_sum_mono(widths, c2, c1);
        }
    } else {
        let col = pk.columns[c1];
        assert(column_stacked(col));
        let heights = shelf_heights(col.shelves);
        if j1 != j2 {
            if j1 < j2 {
                lemma_prefix_sum_mono(heights, j1, j2);
            } else {
                lemma_prefix_sum_mono(heights, j2, j1);
            }
        } else {
            let shelf = col.shelves[j1];
            let lengths = run_lengths(shelf.allocations);
            if i1 < i2 {
                lemma_prefix_sum_mono(lengths, i1, i2);
            } else {
                lemma_prefix_sum_mono(lengths, i2, i1);
            }
        }
    }
}

/// Handing out in an existing shelf keeps a column's shelves stacked and
/// changes only the shelf it serves, which stays tidy where it was tidy and
/// no run of it is split.
proof fn lemma_column_allocate_stacked(c: ColumnView, width: int, height: int)
    requires
        column_stacked(c),
        column_wf(c),
        width >= 0,
    ensures
        column_stacked(column_allocate(c, width, height).0),
        column_allocate(c, width, height).0.x == c.x,
        column_allocate(c, width, height).0.width == c.width,
        column_allocate(c, width, height).0.shelves.len() == c.shelves.len(),
        column_candidate(c, width, height, 0) < 0 ==> column_allocate(c, width, height).0 == c,
        column_candidate(c, width, height, 0) >= 0 ==> {
            let i = c.shelves_by_height[column_candidate(c, width, height, 0)];
            let s = c.shelves[i];
            &&& forall|j: int| 0 <= j < c.shelves.len() && j != i ==> #[trigger] column_allocate(c, width, height).0.shelves[j] == c.shelves[j]
            &&& shelf_tidy(s) && !shelf_splits(s, width, c.width) ==> shelf_tidy(column_allocate(c, width, height).0.shelves[i])
        },
{
    let p = column_candidate(c, width, height, 0);
    lemma_column_candidate_range(c, width, height, 0);
    if p >= 0 {
        let i = c.shelves_by_height[p];
        let s = c.shelves[i];
        if shelf_tidy(s) && !shelf_splits(s, width, c.width) {
            lemma_shelf_allocate_tidy(s, width, c.width);
        }
        let c1 = column_allocate(c, width, height).0;
        assert(shelf_heights(c1.shelves) =~= shelf_heights(c.shelves));
    }
}

/// Opening a shelf keeps a column's shelves stacked, keeps the others as they
/// were, and the new shelf is tidy.
proof fn lemma_column_new_shelf_stacked(c: ColumnView, width: int, height: int)
    requires
        column_stacked(c),
        width >= 0,
        height >= 0,
    ensures
        column_stacked(column_allocate_in_new_shelf(c, width, height).0),
        column_allocate_in_new_shelf(c, width, height).0.x == c.x,
        column_allocate_in_new_shelf(c, width, height).0.width == c.width,
        column_allocate_in_new_shelf(c, width, height).0.shelves.len() == c.shelves.len() + 1,
        forall|j: int| 0 <= j < c.shelves.len() ==> #[trigger] column_allocate_in_new_shelf(c, width, height).0.shelves[j] == c.shelves[j],
        shelf_tidy(column_allocate_in_new_shelf(c, width, height).0.shelves[c.shelves.len() as int]),
{
    let c1 = column_allocate_in_new_shelf(c, width, height).0;
    let n = c.shelves.len() as int;
    let h0 = shelf_heights(c.shelves);
    let h1 = shelf_heights(c1.shelves);
    assert(h1 =~= h0.push(height));
    lemma_started_shelf_tidy(c.allocated_height, height, width);
    assert forall|j: int| 0 <= j < c1.shelves.len() implies #[trigger] c1.shelves[j].y == prefix_sum(
        shelf_heights(c1.shelves),
        j,
    ) by {
        lemma_prefix_sum_agree(h0, h1, j);
    }
    lemma_prefix_sum_agree(h0, h1, n);
    assert(prefix_sum(h1, n + 1) == prefix_sum(h1, n) + height);
}

/// Handing out any request keeps the packer laid out, and keeps every shelf
/// tidy that was tidy, except the one whose run it splits; a new shelf is
/// tidy.
pub proof fn lemma_allocate_keeps_laid_out(pk: PackerView, width: int, height: int)
    requires
        packer_wf(pk),
        packer_laid_out(pk),
        0 <= width,
        0 <= height,
    ensures
        packer_laid_out(packer_allocate(pk, width, height).0),
        packer_allocate(pk, width, height).0.columns.len() >= pk.columns.len(),
        forall|c: int, j: int|
            #![trigger packer_allocate(pk, width, height).0.columns[c].shelves[j]]
            0 <= c < packer_allocate(pk, width, height).0.columns.len() && 0 <= j
                < packer_allocate(pk, width, height).0.columns[c].shelves.len() && !(packer_allocate_splits(
                pk,
                width,
                height,
            ) && serves_shelf(pk, width, height, c, j)) ==> tidy_where_it_was(pk, packer_allocate(pk, width, height).0, c, j),
{
    let pk1 = packer_allocate(pk, width, height).0;
    let c1 = reusing_column(pk, width, height, 0);
    let c2 = growing_column(pk, width, height, 0);
    lemma_reusing_column_range(pk, width, height, 0);
    lemma_growing_column_range(pk, width, height, 0);
    let w0 = column_widths(pk.columns);
    if c1 >= 0 {
        let c = pk.columns[c1];
        assert(column_wf(c));
        assert(column_stacked(c));
        lemma_column_allocate_stacked(c, width, height);
        lemma_column_candidate_range(c, width, height, 0);
        assert(column_widths(pk1.columns) =~= w0);
        assert forall|ci: int| 0 <= ci < pk1.columns.len() implies column_stacked(#[trigger] pk1.columns[ci]) by {
            if ci != c1 {
                assert(pk1.columns[ci] == pk.columns[ci]);
            }
        }
        assert forall|ci: int, j: int|
            #![trigger pk1.columns[ci].shelves[j]]
            0 <= ci < pk1.columns.len() && 0 <= j < pk1.columns[ci].shelves.len() && !(packer_allocate_splits(
                pk,
                width,
                height,
            ) && serves_shelf(pk, width, height, ci, j)) implies tidy_where_it_was(pk, pk1, ci, j) by {
            if ci != c1 {
                assert(pk1.columns[ci] == pk.columns[ci]);
            }
        }
    } else if c2 >= 0 {
        let c = pk.columns[c2];
        assert(column_stacked(c));
        lemma_column_new_shelf_stacked(c, width, height);
        assert(column_widths(pk1.columns) =~= w0);
        assert forall|ci: int| 0 <= ci < pk1.columns.len() implies column_stacked(#[trigger] pk1.columns[ci]) by {
            if ci != c2 {
                assert(pk1.columns[ci] == pk.columns[ci]);
            }
        }
        assert forall|ci: int, j: int|
            #![trigger pk1.columns[ci].shelves[j]]
            0 <= ci < pk1.columns.len() && 0 <= j < pk1.columns[ci].shelves.len() implies tidy_where_it_was(
                pk,
                pk1,
                ci,
                j,
            ) by {
            if ci != c2 {
                assert(pk1.columns[ci] == pk.columns[ci]);
            }
        }
    } else if new_column_width(pk, width) <= pk.width - pk.allocated_width {
        let n = pk.columns.len() as int;
        let cw = new_column_width(pk, width);
        let empty = ColumnView { x: pk.allocated_width, allocated_height: 0, width: cw, shelves: Seq::empty(), shelves_by_height: Seq::empty() };
        assert(shelf_heights(empty.shelves) =~= Seq::<int>::empty());
        lemma_column_new_shelf_stacked(empty, width, height);
        let w1 = column_widths(pk1.columns);
        assert(w1 =~= w0.push(cw));
        assert forall|ci: int| 0 <= ci < pk1.columns.len() implies #[trigger] pk1.columns[ci].x == prefix_sum(
            column_widths(pk1.columns),
            ci,
        ) by {
            lemma_prefix_sum_agree(w0, w1, ci);
        }
        lemma_prefix_sum_agree(w0, w1, n);
        assert(prefix_sum(w1, n + 1) == prefix_sum(w1, n) + cw);
        assert forall|ci: int| 0 <= ci < pk1.columns.len() implies column_stacked(#[trigger] pk1.columns[ci]) by {
            if ci < n {
                assert(pk1.columns[ci] == pk.columns[ci]);
            }
        }
        assert forall|ci: int, j: int|
            #![trigger pk1.columns[ci].shelves[j]]
            0 <= ci < pk1.columns.len() && 0 <= j < pk1.columns[ci].shelves.len() implies tidy_where_it_was(
                pk,
                pk1,
                ci,
                j,
            ) by {
            if ci < n {
                assert(pk1.columns[ci] == pk.columns[ci]);
            }
        }
    }
}

/// Freeing keeps the packer laid out and every tidy shelf tidy.
pub proof fn lemma_free_keeps_laid_out(pk: PackerView, id: AllocationId)
    requires
        packer_wf(pk),
        packer_laid_out(pk),
        packer_free_ok(pk, id),
    ensures
        packer_laid_out(packer_free(pk, id)),
        packer_free(pk, id).columns.len() == pk.columns.len(),
        forall|c: int| 0 <= c < pk.columns.len() ==> #[trigger] packer_free(pk, id).columns[c].shelves.len() == pk.columns[c].shelves.len(),
        forall|c: int, j: int|
            #![trigger packer_free(pk, id).columns[c].shelves[j]]
            0 <= c < pk.columns.len() && 0 <= j < pk.columns[c].shelves.len() ==> tidy_where_it_was(pk, packer_free(pk, id), c, j),
{
    let pk1 = packer_free(pk, id);
    let ci = id.column as int;
    let si = id.shelf as int;
    let c = pk.columns[ci];
    let s = c.shelves[si];
    let t = free_target(pk, id);
    assert(column_stacked(c));
    lemma_first_with_offset_range(s.allocations, id.offset as int, 0);
    let s1 = shelf_release(s, t);
    if shelf_tidy(s) {
        assert(run_lengths(s1.allocations) =~= run_lengths(s.allocations));
        assert forall|k: int| 0 <= k < s1.free_list.len() implies !s1.allocations[#[trigger] s1.free_list[k]].allocated by {
            if k < s.free_list.len() {
                assert(s1.free_list[k] == s.free_list[k]);
                assert(s.free_list[k] != t);
            }
        }
        assert forall|a: int, b: int| 0 <= a < b < s1.free_list.len() implies s1.free_list[a] != s1.free_list[b] by {
            if b == s.free_list.len() {
                assert(s1.free_list[a] == s.free_list[a]);
            }
        }
        assert(shelf_tidy(s1));
    }
    let c1 = pk1.columns[ci];
    assert(shelf_heights(c1.shelves) =~= shelf_heights(c.shelves));
    assert(column_widths(pk1.columns) =~= column_widths(pk.columns));
    assert forall|cj: int| 0 <= cj < pk1.columns.len() implies column_stacked(#[trigger] pk1.columns[cj]) by {
        if cj != ci {
            assert(pk1.columns[cj] == pk.columns[cj]);
        }
    }
    assert forall|cj: int, j: int|
        #![trigger pk1.columns[cj].shelves[j]]
        0 <= cj < pk.columns.len() && 0 <= j < pk.columns[cj].shelves.len() implies tidy_where_it_was(pk, pk1, cj, j) by {
        if cj != ci {
            assert(pk1.columns[cj] == pk.columns[cj]);
        } else if j != si {
            assert(c1.shelves[j] == c.shelves[j]);
        }
    }
}

/// A piece handed out in a tidy shelf (or a new one) without splitting a run
/// overlaps no other run that lies within its column: the run serving it
/// lies within its column, and its area shares no point with the area of
/// any other such run. A piece lies inside the run that serves it (see
/// [`lemma_allocation_within_run`]); runs of tidy shelves lie within their
/// columns (see [`lemma_tidy_shelf_runs_within`]), and a shelf stays tidy
/// until a request splits one of its runs (see
/// [`lemma_allocate_keeps_laid_out`] and [`lemma_free_keeps_laid_out`]).
pub proof fn lemma_tidy_allocation_apart(pk: PackerView, width: int, height: int, c2: int, j2: int, i2: int)
    requires
        packer_wf(pk),
        packer_wf(packer_allocate(pk, width, height).0),
        packer_laid_out(pk),
        0 <= width,
        0 <= height,
        !packer_allocate_splits(pk, width, height),
        packer_allocate(pk, width, height).1 matches Some(t) && tidy_or_new(pk, t.1, t.0),
        run_exists(packer_allocate(pk, width, height).0, c2, j2, i2),
        run_within_column(packer_allocate(pk, width, height).0, c2, j2, i2),
    ensures
        packer_allocate(pk, width, height).1 matches Some(t) && {
            let pk1 = packer_allocate(pk, width, height).0;
            let i = serving_run(pk, width, height);
            &&& run_within_column(pk1, t.1, t.0, i)
            &&& (t.1, t.0, i) != (c2, j2, i2) ==> !cells_overlap(run_cell(pk1, t.1, t.0, i), run_cell(pk1, c2, j2, i2))
        },
{
    let pk1 = packer_allocate(pk, width, height).0;
    let t = packer_allocate(pk, width, height).1.unwrap();
    let i = serving_run(pk, width, height);
    lemma_allocation_within_run(pk, width, height);
    lemma_allocate_keeps_laid_out(pk, width, height);
    assert(tidy_where_it_was(pk, pk1, t.1, t.0));
    assert(shelf_tidy(pk1.columns[t.1].shelves[t.0]));
    lemma_tidy_shelf_runs_within(pk1, t.1, t.0, i);
    if (t.1, t.0, i) != (c2, j2, i2) {
        lemma_laid_out_cells_disjoint(pk1, t.1, t.0, i, c2, j2, i2);
    }
}

/// The run that serves a request: the new run at the end of the shelf, the
/// reused free run, or the first run of a new shelf.
pub open spec fn serving_run(pk: PackerView, width: int, height: int) -> int {
    let c1 = reusing_column(pk, width, height, 0);
    if c1 >= 0 {
        let c = pk.columns[c1];
        let s = c.shelves[c.shelves_by_height[column_candidate(c, width, height, 0)]];
        if shelf_has_room(s, width, c.width) {
            s.allocations.len() as int
        } else {
            s.free_list[reused_slot(s, width)]
        }
    } else {
        0
    }
}

/// A handed-out piece lies within the area of the run that serves it, and
/// that run is marked as handed out: the piece starts where the run starts,
/// the run is at least as long as the piece, and its shelf at least as tall.
pub proof fn lemma_allocation_within_run(pk: PackerView, width: int, height: int)
    requires
        packer_wf(pk),
        0 <= width,
        0 <= height,
    ensures
        packer_allocate(pk, width, height).1 matches Some(t) ==> {
            let pk1 = packer_allocate(pk, width, height).0;
            let i = serving_run(pk, width, height);
            let shelf = pk1.columns[t.1].shelves[t.0];
            &&& run_exists(pk1, t.1, t.0, i)
            &&& shelf.allocations[i].allocated
            &&& shelf.allocations[i].offset == t.2
            &&& shelf.allocations[i].length >= width
            &&& shelf.height >= height
        },
{
    lemma_allocate_names_existing(pk, width, height);
    let c1 = reusing_column(pk, width, height, 0);
    let c2 = growing_column(pk, width, height, 0);
    lemma_reusing_column_range(pk, width, height, 0);
    lemma_growing_column_range(pk, width, height, 0);
    if c1 >= 0 {
        let c = pk.columns[c1];
        assert(column_wf(c));
        let p = column_candidate(c, width, height, 0);
        lemma_column_candidate_range(c, width, height, 0);
        lemma_candidate_fits(c, width, height, 0);
        let s = c.shelves[c.shelves_by_height[p]];
        if !shelf_has_room(s, width, c.width) {
            lemma_last_fitting_slot_range(s, width, s.free_list.len() as int);
            let k = reused_slot(s, width);
            let i = s.free_list[k];
            assert(shelf_wf(s, c.width));
            if s.allocations[i].length > width {
                assert(shelf_allocate(s, width, c.width).0.allocations[i] == AllocationView { allocated: true, ..s.allocations[i] });
            }
        }
    }
}

/// The candidate shelf is at least as tall as the request, and handing out in
/// it succeeds.
proof fn lemma_candidate_fits(c: ColumnView, width: int, height: int, p: int)
    requires
        0 <= p,
        column_candidate(c, width, height, p) >= 0,
    ensures
        c.shelves[c.shelves_by_height[column_candidate(c, width, height, p)]].height >= height,
        shelf_allocate(c.shelves[c.shelves_by_height[column_candidate(c, width, height, p)]], width, c.width).1 is Some,
    decreases c.shelves_by_height.len() - p,
{
    let s = c.shelves[c.shelves_by_height[p]];
    if p < c.shelves_by_height.len() && (s.height < height || (s.height / 2 <= height && shelf_allocate(s, width, c.width).1 is None)) {
        lemma_candidate_fits(c, width, height, p + 1);
    }
}

/// Freeing a run of a shelf with no fresh room left and handing out a request
/// exactly as long as the run gives the same run back and restores the
/// shelf.
pub proof fn lemma_shelf_free_then_allocate(s: ShelfView, i: int, width: int, column_width: int)
    requires
        shelf_wf(s, column_width),
        shelf_tidy(s),
        0 <= i < s.allocations.len(),
        s.allocations[i].allocated,
        s.allocations[i].length == width,
        !shelf_has_room(s, width, column_width),
    ensures
        shelf_allocate(shelf_release(s, i), width, column_width) == (s, Some(s.allocations[i].offset)),
{
    let s1 = shelf_release(s, i);
    let n = s.free_list.len() as int;
    assert(free_slot_fits(s1, width, n));
    assert(reused_slot(s1, width) == n);
    let s2 = shelf_allocate(s1, width, column_width).0;
    assert(s2.allocations =~= s.allocations);
    assert(s2.free_list =~= s.free_list);
}

/// Freeing a piece and then making a request exactly as long as its run
/// hands out the same piece again and restores the packer, when the request
/// is served by that piece's shelf and that shelf has no fresh room left.
pub proof fn lemma_free_then_allocate(pk: PackerView, id: AllocationId, height: int)
    requires
        packer_wf(pk),
        packer_tidy(pk),
        packer_free_ok(pk, id),
        ({
            let pk1 = packer_free(pk, id);
            let s = pk.columns[id.column as int].shelves[id.shelf as int];
            let width = s.allocations[free_target(pk, id)].length;
            let c = pk1.columns[id.column as int];
            &&& !shelf_has_room(s, width, c.width)
            &&& reusing_column(pk1, width, height, 0) == id.column as int
            &&& c.shelves_by_height[column_candidate(c, width, height, 0)] == id.shelf as int
        }),
    ensures
        ({
            let s = pk.columns[id.column as int].shelves[id.shelf as int];
            let width = s.allocations[free_target(pk, id)].length;
            packer_allocate(packer_free(pk, id), width, height) == (
                pk,
                Some((id.shelf as int, id.column as int, id.offset as int)),
            )
        }),
{
    let ci = id.column as int;
    let si = id.shelf as int;
    let c = pk.columns[ci];
    let s = c.shelves[si];
    let t = free_target(pk, id);
    let width = s.allocations[t].length;
    let pk1 = packer_free(pk, id);
    let c1 = pk1.columns[ci];
    assert(column_wf(c));
    assert(column_tidy(c));
    lemma_first_with_offset_range(s.allocations, id.offset as int, 0);
    lemma_first_with_offset_found(s.allocations, id.offset as int, 0);
    lemma_shelf_free_then_allocate(s, t, width, c.width);
    assert(c1.shelves[si] == shelf_release(s, t));
    lemma_reusing_column_range(pk1, width, height, 0);
    assert(column_candidate(c1, width, height, 0) >= 0);
    assert(c1.width == c.width);
    let r = column_allocate(c1, width, height);
    assert(r.0.shelves == c1.shelves.update(si, s));
    assert(r.0.shelves =~= c.shelves);
    assert(r.0 == c);
    assert(pk1.columns.update(ci, c) =~= pk.columns);
}

proof fn lemma_first_with_offset_found(allocations: Seq<AllocationView>, offset: int, q: int)
    requires
        first_with_offset(allocations, offset, q) >= 0,
    ensures
        allocations[first_with_offset(allocations, offset, q)].offset == offset,
    decreases allocations.len() - q,
{
    if 0 <= q < allocations.len() && allocations[q].offset != offset {
        lemma_first_with_offset_found(allocations, offset, q + 1);
    }
}

} // verus!
