//! The place of each container inside a workspace, on a 256 x 256 grid.
//!
//! A workspace is seen as a square whose top left corner is `(0, 0)` and whose
//! bottom right corner is `(255, 255)`. A layout gives every container of the
//! workspace a rectangle of that square.
use vstd::prelude::*;

use crate::structs::{ContainerForSend, ContainerView, WindowForSend};

verus! {

/// The largest coordinate of the workspace square.
pub const MAX: u8 = 255u8;

/// The shape of a window inside a workspace, with `(0, 0)` as the top left corner and
/// `(255, 255)` as the bottom right corner of the workspace.
#[derive(PartialEq, Eq, Debug, Clone, Copy, Hash)]
pub struct Rect {
    pub left_top: (u8, u8),
    pub right_bottom: (u8, u8),
}

/// The same rectangle with its x and y coordinates swapped.
pub open spec fn transposed(r: Rect) -> Rect {
    Rect {
        left_top: (r.left_top.1, r.left_top.0),
        right_bottom: (r.right_bottom.1, r.right_bottom.0),
    }
}

/// The index of the entry whose container is `key`, or -1 where none is.
pub open spec fn key_index(entries: Seq<(ContainerView, Rect)>, key: ContainerView) -> int
    decreases entries.len(),
{
    if entries.len() == 0 {
        -1
    } else if entries.last().0 == key {
        entries.len() - 1
    } else {
        key_index(entries.drop_last(), key)
    }
}

/// What a map insertion does to the entries: where `key` is there its rectangle is
/// replaced in place, and otherwise the pair is added at the end.
pub open spec fn insert_entry(entries: Seq<(ContainerView, Rect)>, key: ContainerView, rect: Rect) -> Seq<
    (ContainerView, Rect),
> {
    let i = key_index(entries, key);
    if i >= 0 {
        entries.update(i, (key, rect))
    } else {
        entries.push((key, rect))
    }
}

/// No container occurs twice among the entries.
pub open spec fn distinct_keys(entries: Seq<(ContainerView, Rect)>) -> bool {
    forall|i: int, j: int|
        0 <= i < entries.len() && 0 <= j < entries.len() && i != j ==> #[trigger] entries[i].0
            != #[trigger] entries[j].0
}

/// The entries read as a map from container to rectangle.
pub open spec fn entries_map(entries: Seq<(ContainerView, Rect)>) -> Map<ContainerView, Rect>
    decreases entries.len(),
{
    if entries.len() == 0 {
        Map::empty()
    } else {
        entries_map(entries.drop_last()).insert(entries.last().0, entries.last().1)
    }
}

/// The width of each column when `n` containers share the workspace.
pub open spec fn column_width(n: nat) -> nat {
    255nat / n
}

/// The rectangle of the `i`-th of `n` columns.
pub open spec fn column_rect(n: nat, i: nat) -> Rect {
    Rect {
        left_top: ((column_width(n) * i) as u8, 0u8),
        right_bottom: ((column_width(n) * (i + 1)) as u8, 255u8),
    }
}

/// The entries after the first `k` of the `items` have been given their column.
pub open spec fn columns_prefix(items: Seq<ContainerView>, k: nat) -> Seq<(ContainerView, Rect)>
    decreases k,
{
    if k == 0 {
        Seq::empty()
    } else {
        insert_entry(
            columns_prefix(items, (k - 1) as nat),
            items[k - 1],
            column_rect(items.len(), (k - 1) as nat),
        )
    }
}

/// The column layout of `items`: each container gets one vertical stripe of the
/// workspace, from left to right in the order of the items.
pub open spec fn columns_layout(items: Seq<ContainerView>) -> Seq<(ContainerView, Rect)> {
    columns_prefix(items, items.len())
}

/// The row layout of `items`: the column layout with x and y swapped.
pub open spec fn rows_layout(items: Seq<ContainerView>) -> Seq<(ContainerView, Rect)> {
    columns_layout(items).map_values(|e: (ContainerView, Rect)| (e.0, transposed(e.1)))
}

/// The views of a list of containers.
pub open spec fn container_views(items: Seq<ContainerForSend>) -> Seq<ContainerView> {
    items.map_values(|c: ContainerForSend| c@)
}

/// Why a layout cannot be computed.
#[derive(Debug, PartialEq, Eq, Clone, Copy)]
pub enum LayoutError {
    /// The workspace holds more containers than a `u8` can count.
    TooManyContainers,
}

/// The rectangle of every container of a workspace, in the order in which the
/// containers were placed. Each container occurs once.
#[derive(Debug)]
pub struct WorkspaceWithLayout {
    entries: Vec<(ContainerForSend, Rect)>,
}

impl View for WorkspaceWithLayout {
    type V = Seq<(ContainerView, Rect)>;

    closed spec fn view(&self) -> Seq<(ContainerView, Rect)> {
        self.entries@.map_values(|e: (ContainerForSend, Rect)| (e.0@, e.1))
    }
}

impl WorkspaceWithLayout {
    #[verifier::type_invariant]
    closed spec fn inv(self) -> bool {
        distinct_keys(self@)
    }

    /// The rectangles, read as a map from container to rectangle.
    pub open spec fn spec_map(&self) -> Map<ContainerView, Rect> {
        entries_map(self@)
    }

    /// A layout with no container.
    pub fn new() -> (w: WorkspaceWithLayout)
        ensures
            w@ == Seq::<(ContainerView, Rect)>::empty(),
    {
        let w = WorkspaceWithLayout { entries: Vec::new() };
        assert(w@ =~= Seq::<(ContainerView, Rect)>::empty());
        w
    }

    /// The number of containers.
    pub fn len(&self) -> (n: usize)
        ensures
            n == self@.len(),
    {
        self.entries.len()
    }

    /// Gives `container` the rectangle `rect`, as a map insertion does.
    pub fn insert(&mut self, container: ContainerForSend, rect: Rect)
        ensures
            final(self)@ == insert_entry(old(self)@, container@, rect),
            final(self).spec_map() == old(self).spec_map().insert(container@, rect),
    {
        proof {
            use_type_invariant(&*self);
            lemma_insert_entry_is_map_insert(self@, container@, rect);
        }
        let ghost before = self@;
        let mut entries: Vec<(ContainerForSend, Rect)> = Vec::new();
        std::mem::swap(&mut entries, &mut self.entries);
        assert(entries@.map_values(|e: (ContainerForSend, Rect)| (e.0@, e.1)) == before);
        let found = find_container(&entries, &container);
        let ghost key = container@;
        match found {
            Some(i) => {
                proof {
                    lemma_key_index_unique(before, key, i as int);
                }
                let (old_key, _) = entries.remove(i);
                entries.insert(i, (old_key, rect));
            },
            None => {
                proof {
                    lemma_key_index_absent(before, key);
                }
                entries.push((container, rect));
            },
        }
        assert(entries@.map_values(|e: (ContainerForSend, Rect)| (e.0@, e.1)) =~= insert_entry(
            before,
            key,
            rect,
        ));
        proof {
            lemma_insert_keeps_distinct(before, key, rect);
        }
        self.entries = entries;
    }

    /// The rectangle of `container`, if it has one.
    pub fn get(&self, container: &ContainerForSend) -> (r: Option<Rect>)
        ensures
            match r {
                Some(rect) => self.spec_map().contains_key(container@) && self.spec_map()[container@]
                    == rect,
                None => !self.spec_map().contains_key(container@),
            },
    {
        proof {
            use_type_invariant(self);
        }
        let ghost key = container@;
        let found = find_container(&self.entries, container);
        match found {
            Some(i) => {
                proof {
                    lemma_key_index_unique(self@, key, i as int);
                    lemma_entries_map_at(self@, i as int);
                }
                Some(self.entries[i].1)
            },
            None => {
                proof {
                    lemma_key_index_absent(self@, key);
                    lemma_entries_map_dom(self@, key);
                }
                None
            },
        }
    }

    /// The rectangles, in the order in which their containers were placed.
    pub fn into_values(self) -> (v: Vec<Rect>)
        ensures
            v@ == self@.map_values(|e: (ContainerView, Rect)| e.1),
    {
        let mut v: Vec<Rect> = Vec::new();
        let mut i: usize = 0;
        while i < self.entries.len()
            invariant
                i <= self.entries.len(),
                v@ =~= self@.take(i as int).map_values(|e: (ContainerView, Rect)| e.1),
            decreases self.entries.len() - i,
        {
            v.push(self.entries[i].1);
            i += 1;
        }
        assert(self@.take(i as int) =~= self@);
        v
    }
}

/// Splits the workspace into one column per container, from left to right.
///
/// Every column is `255 / n` wide, where `n` is the number of containers, and spans the
/// whole height. A workspace of more than 255 containers has no column layout.
pub fn colums(items: &Vec<ContainerForSend>) -> (r: Result<WorkspaceWithLayout, LayoutError>)
    requires
        items.len() > 0,
    ensures
        r is Ok <==> items.len() <= 255,
        r matches Ok(w) ==> w@ == columns_layout(container_views(items@)),
        r matches Err(e) ==> e == LayoutError::TooManyContainers,
{
    if items.len() > 255 {
        return Err(LayoutError::TooManyContainers);
    }
    let item_count: u8 = items.len() as u8;
    let weight_per_item: u8 = MAX / item_count;
    let ghost views = container_views(items@);
    let mut layout = WorkspaceWithLayout::new();
    let mut i: u8 = 0;
    while i < item_count
        invariant
            item_count == items.len() == views.len(),
            views == container_views(items@),
            weight_per_item == column_width(item_count as nat),
            i <= item_count,
            layout@ == columns_prefix(views, i as nat),
        decreases item_count - i,
    {
        proof {
            lemma_column_bounds(item_count as nat, i as nat);
        }
        let tmp: u8 = weight_per_item * i;
        let top_x_i: u8 = weight_per_item * (i + 1);
        let rect = Rect { left_top: (tmp, 0), right_bottom: (top_x_i, 255) };
        assert(rect == column_rect(views.len(), i as nat));
        let container = items[i as usize].clone();
        layout.insert(container, rect);
        i = i + 1;
    }
    Ok(layout)
}

/// Splits the workspace into one row per container, from top to bottom: the column
/// layout with x and y swapped.
pub fn rows(items: &Vec<ContainerForSend>) -> (r: Result<WorkspaceWithLayout, LayoutError>)
    requires
        items.len() > 0,
    ensures
        r is Ok <==> items.len() <= 255,
        r matches Ok(w) ==> w@ == rows_layout(container_views(items@)),
        r matches Err(e) ==> e == LayoutError::TooManyContainers,
{
    let columns = colums(items)?;
    proof {
        use_type_invariant(&columns);
    }
    let ghost cols = columns@;
    let mut layout = WorkspaceWithLayout::new();
    let mut i: usize = 0;
    while i < columns.entries.len()
        invariant
            cols == columns@,
            distinct_keys(cols),
            i <= columns.entries.len() == cols.len(),
            layout@ == cols.take(i as int).map_values(
                |e: (ContainerView, Rect)| (e.0, transposed(e.1)),
            ),
        decreases columns.entries.len() - i,
    {
        let c = columns.entries[i].1;
        let rect = Rect {
            left_top: (c.left_top.1, c.left_top.0),
            right_bottom: (c.right_bottom.1, c.right_bottom.0),
        };
        let container = columns.entries[i].0.clone();
        proof {
            let prefix = layout@;
            assert forall|j: int| 0 <= j < prefix.len() implies prefix[j].0 != container@ by {
                assert(prefix[j].0 == cols[j].0);
                assert(cols[i as int].0 == container@);
            }
            lemma_key_index_absent(prefix, container@);
        }
        layout.insert(container, rect);
        assert(layout@ =~= cols.take(i + 1).map_values(
            |e: (ContainerView, Rect)| (e.0, transposed(e.1)),
        ));
        i += 1;
    }
    assert(cols.take(i as int) =~= cols);
    Ok(layout)
}

/// The columns of `n` containers stay inside the workspace.
proof fn lemma_column_bounds(n: nat, i: nat)
    requires
        0 < n <= 255,
        i < n,
    ensures
        column_width(n) * i <= column_width(n) * (i + 1) <= 255,
        column_width(n) * (i + 1) == column_width(n) * i + column_width(n),
{
    let w = column_width(n);
    assert(w * n <= 255) by (nonlinear_arith)
        requires
            w == 255nat / n,
            n > 0,
    ;
    assert(w * i <= w * (i + 1) <= w * n) by (nonlinear_arith)
        requires
            i < n,
    ;
    assert(w * (i + 1) == w * i + w) by (nonlinear_arith);
}

/// Whether two windows are the same: same id, same icon and same accent colour.
fn same_window(a: &WindowForSend, b: &WindowForSend) -> (r: bool)
    ensures
        r == (a@ == b@),
{
    a.id == b.id && a.accent_color == b.accent_color && a.icon.base64_icon == b.icon.base64_icon
}

/// Whether two containers hold the same windows in the same order.
pub fn same_container(a: &ContainerForSend, b: &ContainerForSend) -> (r: bool)
    ensures
        r == (a@ == b@),
{
    if a.windows.len() != b.windows.len() {
        assert(a@.len() != b@.len());
        return false;
    }
    let mut i: usize = 0;
    while i < a.windows.len()
        invariant
            i <= a.windows.len() == b.windows.len(),
            forall|j: int| 0 <= j < i ==> a.windows@[j]@ == b.windows@[j]@,
        decreases a.windows.len() - i,
    {
        if !same_window(&a.windows[i], &b.windows[i]) {
            assert(a@[i as int] != b@[i as int]);
            return false;
        }
        i += 1;
    }
    assert(a@ =~= b@);
    true
}

/// The index of the entry that holds `container`, if one does.
fn find_container(entries: &Vec<(ContainerForSend, Rect)>, container: &ContainerForSend) -> (r:
    Option<usize>)
    ensures
        match r {
            Some(i) => i < entries.len() && entries@[i as int].0@ == container@,
            None => forall|j: int| 0 <= j < entries.len() ==> entries@[j].0@ != container@,
        },
{
    let mut i: usize = 0;
    while i < entries.len()
        invariant
            i <= entries.len(),
            forall|j: int| 0 <= j < i ==> entries@[j].0@ != container@,
        decreases entries.len() - i,
    {
        if same_container(&entries[i].0, container) {
            return Some(i);
        }
        i += 1;
    }
    None
}

proof fn lemma_key_index_range(entries: Seq<(ContainerView, Rect)>, key: ContainerView)
    ensures
        -1 <= key_index(entries, key) < entries.len(),
        key_index(entries, key) >= 0 ==> entries[key_index(entries, key)].0 == key,
        key_index(entries, key) == -1 ==> forall|j: int|
            0 <= j < entries.len() ==> entries[j].0 != key,
    decreases entries.len(),
{
    if entries.len() > 0 {
        lemma_key_index_range(entries.drop_last(), key);
        if entries.last().0 != key {
            assert forall|j: int| 0 <= j < entries.len() - 1 implies entries[j]
                == entries.drop_last()[j] by {}
        }
    }
}

/// Where the keys are distinct, the entry that holds `key` is the one that `key_index` names.
proof fn lemma_key_index_unique(entries: Seq<(ContainerView, Rect)>, key: ContainerView, i: int)
    requires
        distinct_keys(entries),
        0 <= i < entries.len(),
        entries[i].0 == key,
    ensures
        key_index(entries, key) == i,
{
    lemma_key_index_range(entries, key);
    let k = key_index(entries, key);
    if k != i {
        assert(entries[k].0 == entries[i].0);
    }
}

proof fn lemma_key_index_absent(entries: Seq<(ContainerView, Rect)>, key: ContainerView)
    requires
        forall|j: int| 0 <= j < entries.len() ==> entries[j].0 != key,
    ensures
        key_index(entries, key) == -1,
{
    lemma_key_index_range(entries, key);
}

proof fn lemma_insert_keeps_distinct(entries: Seq<(ContainerView, Rect)>, key: ContainerView, rect: Rect)
    requires
        distinct_keys(entries),
    ensures
        distinct_keys(insert_entry(entries, key, rect)),
{
    lemma_key_index_range(entries, key);
    let r = insert_entry(entries, key, rect);
    assert forall|i: int, j: int|
        0 <= i < r.len() && 0 <= j < r.len() && i != j implies #[trigger] r[i].0 != #[trigger] r[j].0 by {
        if key_index(entries, key) >= 0 {
            let k = key_index(entries, key);
            if i != k && j != k {
                assert(r[i] == entries[i] && r[j] == entries[j]);
            } else if i == k {
                assert(entries[k].0 == r[i].0);
                assert(r[j] == entries[j]);
            } else {
                assert(entries[k].0 == r[j].0);
                assert(r[i] == entries[i]);
            }
        } else {
            if i < entries.len() && j < entries.len() {
                assert(r[i] == entries[i] && r[j] == entries[j]);
            }
        }
    }
}

/// The keys of the map are the containers of the entries.
proof fn lemma_entries_map_dom(entries: Seq<(ContainerView, Rect)>, key: ContainerView)
    ensures
        entries_map(entries).contains_key(key) <==> exists|j: int|
            0 <= j < entries.len() && #[trigger] entries[j].0 == key,
    decreases entries.len(),
{
    if entries.len() > 0 {
        let init = entries.drop_last();
        lemma_entries_map_dom(init, key);
        if entries_map(entries).contains_key(key) {
            if entries.last().0 != key {
                let j = choose|j: int| 0 <= j < init.len() && #[trigger] init[j].0 == key;
                assert(entries[j] == init[j]);
            } else {
                assert(entries[entries.len() - 1].0 == key);
            }
        }
        if exists|j: int| 0 <= j < entries.len() && #[trigger] entries[j].0 == key {
            let j = choose|j: int| 0 <= j < entries.len() && #[trigger] entries[j].0 == key;
            if j < entries.len() - 1 {
                assert(init[j] == entries[j]);
            }
        }
    }
}

/// With distinct keys, the map sends the container of each entry to its rectangle.
proof fn lemma_entries_map_at(entries: Seq<(ContainerView, Rect)>, i: int)
    requires
        distinct_keys(entries),
        0 <= i < entries.len(),
    ensures
        entries_map(entries).contains_key(entries[i].0),
        entries_map(entries)[entries[i].0] == entries[i].1,
    decreases entries.len(),
{
    let init = entries.drop_last();
    if i < entries.len() - 1 {
        assert(init[i] == entries[i]);
        assert forall|a: int, b: int|
            0 <= a < init.len() && 0 <= b < init.len() && a != b implies #[trigger] init[a].0
            != #[trigger] init[b].0 by {
            assert(init[a] == entries[a] && init[b] == entries[b]);
        }
        lemma_entries_map_at(init, i);
        assert(entries[entries.len() - 1].0 != entries[i].0);
    }
}

/// Where no container occurs twice, the column layout has one entry per container, in
/// the order of the items, and the `i`-th container gets the `i`-th column.
pub proof fn lemma_columns_one_per_item(items: Seq<ContainerView>)
    requires
        forall|i: int, j: int|
            0 <= i < items.len() && 0 <= j < items.len() && i != j ==> items[i] != items[j],
    ensures
        columns_layout(items).len() == items.len(),
        forall|i: int|
            0 <= i < items.len() ==> #[trigger] columns_layout(items)[i] == (
                items[i],
                column_rect(items.len(), i as nat),
            ),
{
    lemma_columns_prefix_distinct(items, items.len());
}

proof fn lemma_columns_prefix_distinct(items: Seq<ContainerView>, k: nat)
    requires
        k <= items.len(),
        forall|i: int, j: int|
            0 <= i < items.len() && 0 <= j < items.len() && i != j ==> items[i] != items[j],
    ensures
        columns_prefix(items, k).len() == k,
        forall|i: int|
            0 <= i < k ==> #[trigger] columns_prefix(items, k)[i] == (
                items[i],
                column_rect(items.len(), i as nat),
            ),
    decreases k,
{
    if k > 0 {
        let prev = columns_prefix(items, (k - 1) as nat);
        lemma_columns_prefix_distinct(items, (k - 1) as nat);
        assert forall|j: int| 0 <= j < prev.len() implies prev[j].0 != items[k - 1] by {
            assert(prev[j].0 == items[j]);
        }
        lemma_key_index_absent(prev, items[k - 1]);
    }
}

/// The column layout gives a rectangle to every container of the items and to nothing
/// else.
pub proof fn lemma_columns_cover_items(items: Seq<ContainerView>, c: ContainerView)
    ensures
        entries_map(columns_layout(items)).contains_key(c) <==> items.contains(c),
{
    lemma_columns_prefix_keys(items, items.len(), c);
    lemma_entries_map_dom(columns_layout(items), c);
}

proof fn lemma_columns_prefix_keys(items: Seq<ContainerView>, k: nat, c: ContainerView)
    requires
        k <= items.len(),
    ensures
        (exists|j: int| 0 <= j < columns_prefix(items, k).len() && #[trigger] columns_prefix(items, k)[j].0 == c)
            <==> (exists|j: int| 0 <= j < k && items[j] == c),
    decreases k,
{
    if k > 0 {
        let prev = columns_prefix(items, (k - 1) as nat);
        let cur = columns_prefix(items, k);
        lemma_columns_prefix_keys(items, (k - 1) as nat, c);
        lemma_key_index_range(prev, items[k - 1]);
        let ki = key_index(prev, items[k - 1]);
        if exists|j: int| 0 <= j < cur.len() && #[trigger] cur[j].0 == c {
            let j = choose|j: int| 0 <= j < cur.len() && #[trigger] cur[j].0 == c;
            if ki >= 0 {
                if j != ki {
                    assert(prev[j].0 == c);
                } else {
                    assert(items[k - 1] == c);
                }
            } else {
                if j < prev.len() {
                    assert(prev[j].0 == c);
                } else {
                    assert(items[k - 1] == c);
                }
            }
        }
        if exists|j: int| 0 <= j < k && items[j] == c {
            if c == items[k - 1] {
                if ki >= 0 {
                    assert(cur[ki].0 == c);
                } else {
                    assert(cur[prev.len() as int].0 == c);
                }
            } else {
                let j = choose|j: int| 0 <= j < k && items[j] == c;
                assert(j < k - 1);
                let m = choose|m: int| 0 <= m < prev.len() && #[trigger] prev[m].0 == c;
                assert(cur[m].0 == c);
            }
        }
    }
}

/// The columns of `n` containers tile the workspace from the left: the first starts at
/// x = 0, each starts where the one before it ends, each is `255 / n` wide and spans the
/// whole height, and the last ends within `n` of the right edge.
pub proof fn lemma_columns_tile(n: nat)
    requires
        0 < n <= 255,
    ensures
        column_rect(n, 0).left_top.0 == 0,
        forall|i: nat| #![trigger column_rect(n, i)]
            i < n ==> {
                &&& column_rect(n, i).left_top.1 == 0
                &&& column_rect(n, i).right_bottom.1 == 255
                &&& column_rect(n, i).right_bottom.0 - column_rect(n, i).left_top.0 == 255nat
                    / n
            },
        forall|i: nat|
            i + 1 < n ==> #[trigger] column_rect(n, i + 1).left_top.0 == column_rect(
                n,
                i,
            ).right_bottom.0,
        255 - n < column_rect(n, (n - 1) as nat).right_bottom.0 <= 255,
{
    assert forall|i: nat| #![trigger column_rect(n, i)] i < n implies {
        &&& column_rect(n, i).left_top.1 == 0
        &&& column_rect(n, i).right_bottom.1 == 255
        &&& column_rect(n, i).right_bottom.0 - column_rect(n, i).left_top.0 == 255nat / n
    } by {
        lemma_column_bounds(n, i);
    }
    assert forall|i: nat| i + 1 < n implies #[trigger] column_rect(n, i + 1).left_top.0
        == column_rect(n, i).right_bottom.0 by {
        lemma_column_bounds(n, i);
        lemma_column_bounds(n, i + 1);
    }
    lemma_column_bounds(n, (n - 1) as nat);
    let w = column_width(n);
    assert(255 - n < w * n) by (nonlinear_arith)
        requires
            w == 255nat / n,
            n > 0,
    ;
}

/// Swapping x and y twice gives the rectangle back.
pub proof fn lemma_transposed_twice(r: Rect)
    ensures
        transposed(transposed(r)) == r,
{
}

/// The `i`-th row of the row layout is the `i`-th column of the column layout with x and
/// y swapped, and the row layout places the same containers in the same order.
pub proof fn lemma_rows_transpose_columns(items: Seq<ContainerView>, i: int)
    requires
        0 <= i < columns_layout(items).len(),
    ensures
        rows_layout(items).len() == columns_layout(items).len(),
        rows_layout(items)[i].0 == columns_layout(items)[i].0,
        transposed(rows_layout(items)[i].1) == columns_layout(items)[i].1,
{
}

/// A layout behaves as a map: placing a container is inserting it into the map from
/// containers to rectangles, whether or not it was placed before.
pub proof fn lemma_insert_entry_is_map_insert(
    entries: Seq<(ContainerView, Rect)>,
    key: ContainerView,
    rect: Rect,
)
    requires
        distinct_keys(entries),
    ensures
        entries_map(insert_entry(entries, key, rect)) == entries_map(entries).insert(key, rect),
{
    let updated = insert_entry(entries, key, rect);
    lemma_insert_keeps_distinct(entries, key, rect);
    lemma_key_index_range(entries, key);
    let ki = key_index(entries, key);
    assert forall|x: ContainerView| #[trigger] entries_map(updated).contains_key(x)
        <==> entries_map(entries).insert(key, rect).contains_key(x) by {
        lemma_entries_map_dom(updated, x);
        lemma_entries_map_dom(entries, x);
        if exists|j: int| 0 <= j < updated.len() && #[trigger] updated[j].0 == x {
            let j = choose|j: int| 0 <= j < updated.len() && #[trigger] updated[j].0 == x;
            if x != key {
                assert(entries[j].0 == x);
            }
        }
        if exists|j: int| 0 <= j < entries.len() && #[trigger] entries[j].0 == x {
            let j = choose|j: int| 0 <= j < entries.len() && #[trigger] entries[j].0 == x;
            if x != key {
                assert(updated[j].0 == x);
            }
        }
        if x == key {
            if ki >= 0 {
                assert(updated[ki].0 == x);
            } else {
                assert(updated[entries.len() as int].0 == x);
            }
        }
    }
    assert forall|x: ContainerView| #[trigger] entries_map(updated).contains_key(x) implies entries_map(
        updated,
    )[x] == entries_map(entries).insert(key, rect)[x] by {
        if x == key {
            let at = if ki >= 0 {
                ki
            } else {
                entries.len() as int
            };
            assert(updated[at] == (key, rect));
            lemma_entries_map_at(updated, at);
        } else {
            lemma_entries_map_dom(updated, x);
            let j = choose|j: int| 0 <= j < updated.len() && #[trigger] updated[j].0 == x;
            assert(updated[j] == entries[j]);
            lemma_entries_map_at(updated, j);
            lemma_entries_map_at(entries, j);
        }
    }
    assert(entries_map(updated) =~= entries_map(entries).insert(key, rect));
}

/// Each row is its column with x and y swapped, coordinate by coordinate: the row's top
/// left corner is the column's top left corner read as (y, x), and so is its bottom
/// right corner.
pub proof fn lemma_rows_swap_coordinates(items: Seq<ContainerView>, i: int)
    requires
        0 <= i < columns_layout(items).len(),
    ensures
        rows_layout(items).len() == columns_layout(items).len(),
        rows_layout(items)[i].0 == columns_layout(items)[i].0,
        rows_layout(items)[i].1.left_top.0 == columns_layout(items)[i].1.left_top.1,
        rows_layout(items)[i].1.left_top.1 == columns_layout(items)[i].1.left_top.0,
        rows_layout(items)[i].1.right_bottom.0 == columns_layout(items)[i].1.right_bottom.1,
        rows_layout(items)[i].1.right_bottom.1 == columns_layout(items)[i].1.right_bottom.0,
{
}

/// Where no container occurs twice, the `i`-th of `n` containers gets the `i`-th
/// horizontal stripe: from the left edge to the right edge (x from 0 to 255), and from
/// y = (255 / n) * i to y = (255 / n) * (i + 1).
pub proof fn lemma_rows_are_stripes(items: Seq<ContainerView>, i: int)
    requires
        0 < items.len() <= 255,
        0 <= i < items.len(),
        forall|a: int, b: int|
            0 <= a < items.len() && 0 <= b < items.len() && a != b ==> items[a] != items[b],
    ensures
        rows_layout(items).len() == items.len(),
        rows_layout(items)[i].0 == items[i],
        rows_layout(items)[i].1.left_top.0 == 0,
        rows_layout(items)[i].1.right_bottom.0 == 255,
        rows_layout(items)[i].1.left_top.1 == (255nat / items.len()) * i,
        rows_layout(items)[i].1.right_bottom.1 == (255nat / items.len()) * (i + 1),
{
    lemma_columns_one_per_item(items);
    lemma_column_bounds(items.len(), i as nat);
    assert(columns_layout(items)[i] == (items[i], column_rect(items.len(), i as nat)));
}

} // verus!
