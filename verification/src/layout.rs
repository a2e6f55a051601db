//! Layout presets, the tree of splits they describe, how a tree divides an
//! area into pane rectangles, and what a pane of the configuration runs.
use vstd::prelude::*;
use crate::text::{decimal, push_decimal, str_eq, trim, trim_spec};

verus! {

/// The direction in which a split places its children: side by side
/// (`Row`) or one above the other (`Column`).
#[derive(Clone, Copy, Debug, PartialEq, Eq, Structural)]
pub enum Axis {
    Row,
    Column,
}

/// A layout tree: a pane, or a split of an area among children in
/// proportion to their weights.
#[derive(Debug)]
pub enum LayoutNode {
    Pane,
    Split { axis: Axis, weights: Vec<u16>, children: Vec<LayoutNode> },
}

/// The layouts that can be asked for by name.
#[derive(Clone, Copy, Debug, PartialEq, Eq, Structural)]
pub enum LayoutPreset {
    Two,
    TwoByTwo,
    ThreeByFour,
    FourByFour,
}

/// A rectangle of terminal cells (or pixels): its top left corner and size.
#[derive(Clone, Copy, Debug, PartialEq, Eq, Structural)]
pub struct Rect {
    pub x: u16,
    pub y: u16,
    pub width: u16,
    pub height: u16,
}

// ---------------------------------------------------------------------------
// Trees

/// Two trees have the same axes, weights and children, all the way down.
pub open spec fn same_shape(a: LayoutNode, b: LayoutNode) -> bool
    decreases a, 0nat,
{
    match a {
        LayoutNode::Pane => b is Pane,
        LayoutNode::Split { axis, weights, children } => match b {
            LayoutNode::Pane => false,
            LayoutNode::Split { axis: axis2, weights: weights2, children: children2 } => {
                &&& axis == axis2
                &&& weights@ == weights2@
                &&& children@.len() == children2@.len()
                &&& same_children(children@, children2@, children@.len() as int)
            },
        },
    }
}

/// The first `n` children of `c1` and `c2` have the same shapes.
pub open spec fn same_children(c1: Seq<LayoutNode>, c2: Seq<LayoutNode>, n: int) -> bool
    decreases c1, n,
{
    if n <= 0 || n > c1.len() {
        true
    } else {
        same_children(c1, c2, n - 1) && same_shape(c1[n - 1], c2[n - 1])
    }
}

proof fn lemma_same_children_ext(c1: Seq<LayoutNode>, c2: Seq<LayoutNode>, c3: Seq<LayoutNode>, n: int)
    requires
        0 <= n <= c2.len(),
        n <= c3.len(),
        forall|k: int| 0 <= k < n ==> c2[k] == c3[k],
        same_children(c1, c2, n),
    ensures
        same_children(c1, c3, n),
    decreases n,
{
    if n > 0 && n <= c1.len() {
        lemma_same_children_ext(c1, c2, c3, n - 1);
    }
}

fn copy_weights(v: &Vec<u16>) -> (res: Vec<u16>)
    ensures
        res@ == v@,
{
    let mut res: Vec<u16> = Vec::new();
    let mut j: usize = 0;
    while j < v.len()
        invariant
            j <= v@.len(),
            res@ == v@.subrange(0, j as int),
        decreases v@.len() - j,
    {
        res.push(v[j]);
        j = j + 1;
    }
    res
}

fn clone_node(node: &LayoutNode) -> (res: LayoutNode)
    ensures
        same_shape(*node, res),
    decreases node,
{
    match node {
        LayoutNode::Pane => LayoutNode::Pane,
        LayoutNode::Split { axis, weights, children } => {
            let mut kids: Vec<LayoutNode> = Vec::new();
            let mut i: usize = 0;
            while i < children.len()
                invariant
                    *node is Split,
                    *children == node->children,
                    i <= children@.len(),
                    kids@.len() == i,
                    same_children(children@, kids@, i as int),
                decreases children@.len() - i,
            {
                proof {
                    assert(decreases_to!(*node => node->children));
                    assert(decreases_to!(node->children => node->children@));
                    assert(decreases_to!(node->children@ => node->children@[i as int]));
                }
                let ghost before = kids@;
                let kid = clone_node(&children[i]);
                kids.push(kid);
                proof {
                    lemma_same_children_ext(children@, before, kids@, i as int);
                }
                i = i + 1;
            }
            let ws = copy_weights(weights);
            LayoutNode::Split { axis: *axis, weights: ws, children: kids }
        },
    }
}

impl Clone for LayoutNode {
    fn clone(&self) -> (res: Self)
        ensures
            same_shape(*self, res),
    {
        clone_node(self)
    }
}

/// The number of panes a tree places: a split places its children up to
/// the number of its weights.
pub open spec fn leaf_count(node: LayoutNode) -> nat
    decreases node, 0nat,
{
    match node {
        LayoutNode::Pane => 1,
        LayoutNode::Split { weights, children, .. } => children_leaf_count(
            children@,
            placed_children(children@.len(), weights@.len()),
        ),
    }
}

/// How many children a split places: as many as it has weights for.
pub open spec fn placed_children(children: nat, weights: nat) -> int {
    if children < weights { children as int } else { weights as int }
}

/// The panes the first `n` children place.
pub open spec fn children_leaf_count(children: Seq<LayoutNode>, n: int) -> nat
    decreases children, n,
{
    if n <= 0 || n > children.len() {
        0
    } else {
        children_leaf_count(children, n - 1) + leaf_count(children[n - 1])
    }
}

/// The sum of the weights.
pub open spec fn weight_total(weights: Seq<u16>) -> nat
    decreases weights.len(),
{
    if weights.len() == 0 {
        0
    } else {
        weight_total(weights.drop_last()) + weights.last() as nat
    }
}

/// Every split that places panes has weights that sum to a `u32`.
pub open spec fn tree_fits(node: LayoutNode) -> bool
    decreases node, 0nat,
{
    match node {
        LayoutNode::Pane => true,
        LayoutNode::Split { weights, children, .. } => {
            &&& weight_total(weights@) <= u32::MAX
            &&& children_fit(children@, placed_children(children@.len(), weights@.len()))
        },
    }
}

pub open spec fn children_fit(children: Seq<LayoutNode>, n: int) -> bool
    decreases children, n,
{
    if n <= 0 || n > children.len() {
        true
    } else {
        children_fit(children, n - 1) && tree_fits(children[n - 1])
    }
}

/// A row of `n` panes of equal weight.
pub open spec fn is_row_of(node: LayoutNode, n: nat) -> bool {
    &&& node is Split
    &&& node->axis == Axis::Row
    &&& node->weights@ == Seq::new(n, |i: int| 1u16)
    &&& node->children@.len() == n
    &&& forall|i: int| 0 <= i < n ==> #[trigger] node->children@[i] is Pane
}

/// A column of `rows` rows of equal weight, each a row of `cols` panes.
pub open spec fn is_grid(node: LayoutNode, rows: nat, cols: nat) -> bool {
    &&& node is Split
    &&& node->axis == Axis::Column
    &&& node->weights@ == Seq::new(rows, |i: int| 1u16)
    &&& node->children@.len() == rows
    &&& forall|i: int| 0 <= i < rows ==> is_row_of(#[trigger] node->children@[i], cols)
}

/// The tree of each preset: two panes side by side, or a grid of rows.
pub open spec fn preset_shape(preset: LayoutPreset, node: LayoutNode) -> bool {
    match preset {
        LayoutPreset::Two => is_row_of(node, 2),
        LayoutPreset::TwoByTwo => is_grid(node, 2, 2),
        LayoutPreset::ThreeByFour => is_grid(node, 4, 3),
        LayoutPreset::FourByFour => is_grid(node, 4, 4),
    }
}

pub open spec fn pane_count_spec(preset: LayoutPreset) -> nat {
    match preset {
        LayoutPreset::Two => 2,
        LayoutPreset::TwoByTwo => 4,
        LayoutPreset::ThreeByFour => 12,
        LayoutPreset::FourByFour => 16,
    }
}

/// The preset a name on the command line selects; an unknown name selects
/// the two-by-two grid.
pub open spec fn preset_from_name(name: Seq<char>) -> LayoutPreset {
    if name == seq!['2'] || name == seq!['2', 'x', '1'] {
        LayoutPreset::Two
    } else if name == seq!['2', 'x', '2'] {
        LayoutPreset::TwoByTwo
    } else if name == seq!['3', 'x', '4'] {
        LayoutPreset::ThreeByFour
    } else if name == seq!['4', 'x', '4'] {
        LayoutPreset::FourByFour
    } else {
        LayoutPreset::TwoByTwo
    }
}

/// The name a preset is written as.
pub open spec fn preset_name(preset: LayoutPreset) -> Seq<char> {
    match preset {
        LayoutPreset::Two => seq!['2'],
        LayoutPreset::TwoByTwo => seq!['2', 'x', '2'],
        LayoutPreset::ThreeByFour => seq!['3', 'x', '4'],
        LayoutPreset::FourByFour => seq!['4', 'x', '4'],
    }
}

impl LayoutPreset {
    pub fn from_cli(value: &str) -> (p: LayoutPreset)
        ensures
            p == preset_from_name(value@),
    {
        proof {
            reveal_strlit("2");
            reveal_strlit("2x1");
            reveal_strlit("2x2");
            reveal_strlit("3x4");
            reveal_strlit("4x4");
            assert("2"@ =~= seq!['2']);
            assert("2x1"@ =~= seq!['2', 'x', '1']);
            assert("2x2"@ =~= seq!['2', 'x', '2']);
            assert("3x4"@ =~= seq!['3', 'x', '4']);
            assert("4x4"@ =~= seq!['4', 'x', '4']);
        }
        if str_eq(value, "2") || str_eq(value, "2x1") {
            LayoutPreset::Two
        } else if str_eq(value, "2x2") {
            LayoutPreset::TwoByTwo
        } else if str_eq(value, "3x4") {
            LayoutPreset::ThreeByFour
        } else if str_eq(value, "4x4") {
            LayoutPreset::FourByFour
        } else {
            LayoutPreset::TwoByTwo
        }
    }

    /// The name the preset is written as in a configuration.
    pub fn cli_name(&self) -> (name: &'static str)
        ensures
            name@ == preset_name(*self),
    {
        proof {
            reveal_strlit("2");
            reveal_strlit("2x2");
            reveal_strlit("3x4");
            reveal_strlit("4x4");
        }
        match self {
            LayoutPreset::Two => "2",
            LayoutPreset::TwoByTwo => "2x2",
            LayoutPreset::ThreeByFour => "3x4",
            LayoutPreset::FourByFour => "4x4",
        }
    }

    pub fn pane_count(&self) -> (n: usize)
        ensures
            n == pane_count_spec(*self),
    {
        match self {
            LayoutPreset::Two => 2,
            LayoutPreset::TwoByTwo => 4,
            LayoutPreset::ThreeByFour => 12,
            LayoutPreset::FourByFour => 16,
        }
    }

    pub fn tree(&self) -> (node: LayoutNode)
        ensures
            preset_shape(*self, node),
    {
        match self {
            LayoutPreset::Two => row_of(2),
            LayoutPreset::TwoByTwo => {
                let mut rows: Vec<LayoutNode> = Vec::new();
                push_rows(&mut rows, 2, 2);
                column_of(rows)
            },
            LayoutPreset::ThreeByFour => {
                let mut rows: Vec<LayoutNode> = Vec::new();
                push_rows(&mut rows, 4, 3);
                column_of(rows)
            },
            LayoutPreset::FourByFour => {
                let mut rows: Vec<LayoutNode> = Vec::new();
                push_rows(&mut rows, 4, 4);
                column_of(rows)
            },
        }
    }
}

fn push_rows(rows: &mut Vec<LayoutNode>, count: usize, panes: usize)
    requires
        old(rows)@.len() == 0,
    ensures
        final(rows)@.len() == count,
        forall|i: int| 0 <= i < count ==> is_row_of(#[trigger] final(rows)@[i], panes as nat),
{
    let mut i: usize = 0;
    while i < count
        invariant
            i <= count,
            rows@.len() == i,
            forall|k: int| 0 <= k < i ==> is_row_of(#[trigger] rows@[k], panes as nat),
        decreases count - i,
    {
        rows.push(row_of(panes));
        i = i + 1;
    }
}

/// A row of `panes` panes of weight 1.
fn row_of(panes: usize) -> (node: LayoutNode)
    ensures
        is_row_of(node, panes as nat),
{
    let mut weights: Vec<u16> = Vec::new();
    let mut children: Vec<LayoutNode> = Vec::new();
    let mut i: usize = 0;
    while i < panes
        invariant
            i <= panes,
            weights@ =~= Seq::new(i as nat, |k: int| 1u16),
            children@.len() == i,
            forall|k: int| 0 <= k < i ==> #[trigger] children@[k] is Pane,
        decreases panes - i,
    {
        weights.push(1);
        children.push(LayoutNode::Pane);
        i = i + 1;
    }
    LayoutNode::Split { axis: Axis::Row, weights, children }
}

/// The children one above the other, each of weight 1.
fn column_of(children: Vec<LayoutNode>) -> (node: LayoutNode)
    ensures
        node is Split,
        node->axis == Axis::Column,
        node->weights@ == Seq::new(children@.len(), |i: int| 1u16),
        node->children@ == children@,
{
    let mut weights: Vec<u16> = Vec::new();
    let mut i: usize = 0;
    while i < children.len()
        invariant
            i <= children@.len(),
            weights@ =~= Seq::new(i as nat, |k: int| 1u16),
        decreases children@.len() - i,
    {
        weights.push(1);
        i = i + 1;
    }
    LayoutNode::Split { axis: Axis::Column, weights, children }
}

// ---------------------------------------------------------------------------
// Dividing an area

/// The ratio each child of a split gets: its weight over the sum of the
/// weights (over 1 when they sum to 0).
pub open spec fn split_ratios_spec(weights: Seq<u16>) -> Seq<(u32, u32)> {
    let total = if weight_total(weights) == 0 { 1 } else { weight_total(weights) };
    Seq::new(weights.len(), |i: int| (weights[i] as u32, total as u32))
}

/// The share of a split that each child gets.
pub fn split_ratios(weights: &Vec<u16>) -> (ratios: Vec<(u32, u32)>)
    requires
        weight_total(weights@) <= u32::MAX,
    ensures
        ratios@ == split_ratios_spec(weights@),
{
    let mut total: u32 = 0;
    let mut i: usize = 0;
    while i < weights.len()
        invariant
            i <= weights@.len(),
            weight_total(weights@) <= u32::MAX,
            total == weight_total(weights@.take(i as int)),
        decreases weights@.len() - i,
    {
        proof {
            assert(weights@.take(i + 1).drop_last() =~= weights@.take(i as int));
            lemma_weight_total_prefix(weights@, i as int + 1);
        }
        total = total + weights[i] as u32;
        i = i + 1;
    }
    assert(weights@.take(weights@.len() as int) =~= weights@);
    let denominator = if total > 1 { total } else { 1 };
    let mut ratios: Vec<(u32, u32)> = Vec::new();
    let mut j: usize = 0;
    while j < weights.len()
        invariant
            j <= weights@.len(),
            denominator == (if weight_total(weights@) == 0 { 1 } else { weight_total(weights@) }),
            ratios@.len() == j,
            forall|k: int| 0 <= k < j ==> #[trigger] ratios@[k] == split_ratios_spec(weights@)[k],
        decreases weights@.len() - j,
    {
        ratios.push((weights[j] as u32, denominator));
        j = j + 1;
    }
    assert(ratios@ =~= split_ratios_spec(weights@));
    ratios
}

proof fn lemma_weight_total_prefix(weights: Seq<u16>, n: int)
    requires
        0 <= n <= weights.len(),
    ensures
        weight_total(weights.take(n)) <= weight_total(weights),
    decreases weights.len() - n,
{
    if n < weights.len() {
        lemma_weight_total_prefix(weights, n + 1);
        assert(weights.take(n + 1).drop_last() =~= weights.take(n));
    } else {
        assert(weights.take(n) =~= weights);
    }
}

/// Divides `area` along `axis` among constraints of the given ratios, with
/// `c` is a chunk a split of `area` along `axis` can give: it spans the
/// area across the axis and lies within it along the axis.
pub open spec fn chunk_of(axis: Axis, area: Rect, c: Rect) -> bool {
    match axis {
        Axis::Row => c.y == area.y && c.height == area.height && area.x <= c.x && c.x + c.width
            <= area.x + area.width,
        Axis::Column => c.x == area.x && c.width == area.width && area.y <= c.y && c.y + c.height
            <= area.y + area.height,
    }
}

/// `chunks` are what a split of `area` along `axis` into `n` parts gives:
/// `n` chunks of the area, in order.
pub open spec fn chunks_of(axis: Axis, n: nat, area: Rect, chunks: Seq<Rect>) -> bool {
    &&& chunks.len() == n
    &&& forall|i: int| 0 <= i < n ==> #[trigger] chunk_of(axis, area, chunks[i])
}

/// `rects` are the rectangles the tree places in `area`, in depth-first
/// order: a pane takes the whole area; a split cuts the area into one chunk
/// per weight, and each placed child, in order, places its panes in its own
/// chunk.
pub open spec fn placed(node: LayoutNode, area: Rect, rects: Seq<Rect>) -> bool
    decreases node, 0nat,
{
    match node {
        LayoutNode::Pane => rects == seq![area],
        LayoutNode::Split { axis, weights, children } => exists|chunks: Seq<Rect>|
            #[trigger] chunks_of(axis, weights@.len(), area, chunks) && children_placed(
                children@,
                chunks,
                placed_children(children@.len(), weights@.len()),
                rects,
            ),
    }
}

/// `rects` are the rectangles the first `n` children place, child `i` in
/// chunk `i`, one child's after another's.
pub open spec fn children_placed(children: Seq<LayoutNode>, chunks: Seq<Rect>, n: int, rects: Seq<Rect>) -> bool
    decreases children, n,
{
    if n <= 0 || n > children.len() {
        rects.len() == 0
    } else {
        let k = children_leaf_count(children, n - 1);
        &&& k <= rects.len()
        &&& children_placed(children, chunks, n - 1, rects.take(k as int))
        &&& placed(children[n - 1], chunks[n - 1], rects.skip(k as int))
    }
}

/// `r` lies within `outer`.
pub open spec fn rect_inside(r: Rect, outer: Rect) -> bool {
    &&& outer.x <= r.x && r.x + r.width <= outer.x + outer.width
    &&& outer.y <= r.y && r.y + r.height <= outer.y + outer.height
}

/// ratatui's `Layout::split`.
///
/// Trusted: ratatui's layout solver is not verified. The contract claims
/// what its source shows of every result: one rectangle per constraint, each
/// spanning the whole area across the axis and lying within it along the
/// axis (the solver is given the area's ends as required bounds of every
/// edge). Where along the axis each one lies is not stated: the solver
/// rounds a floating-point solution found with hash maps.
#[verifier::external_body]
fn split_area(axis: Axis, ratios: &Vec<(u32, u32)>, area: Rect) -> (chunks: Vec<Rect>)
    ensures
        chunks@.len() == ratios@.len(),
        forall|i: int|
            0 <= i < chunks@.len() ==> (axis == Axis::Row ==> #[trigger] chunks@[i].y == area.y
                && chunks@[i].height == area.height),
        forall|i: int|
            0 <= i < chunks@.len() ==> (axis == Axis::Column ==> #[trigger] chunks@[i].x == area.x
                && chunks@[i].width == area.width),
        forall|i: int|
            0 <= i < chunks@.len() ==> (axis == Axis::Row ==> area.x <= #[trigger] chunks@[i].x
                && chunks@[i].x + chunks@[i].width <= area.x + area.width),
        forall|i: int|
            0 <= i < chunks@.len() ==> (axis == Axis::Column ==> area.y <= #[trigger] chunks@[i].y
                && chunks@[i].y + chunks@[i].height <= area.y + area.height),
{
    let direction = match axis {
        Axis::Row => ratatui::layout::Direction::Horizontal,
        Axis::Column => ratatui::layout::Direction::Vertical,
    };
    let constraints: Vec<ratatui::layout::Constraint> = ratios.iter().map(|(n, d)| ratatui::layout::Constraint::Ratio(*n, *d)).collect();
    let whole = ratatui::layout::Rect { x: area.x, y: area.y, width: area.width, height: area.height };
    let chunks = ratatui::layout::Layout::default().direction(direction).constraints(constraints).split(whole);
    chunks.iter().map(|r| Rect { x: r.x, y: r.y, width: r.width, height: r.height }).collect()
}

/// Appends to `out` the rectangle of every pane of the tree, in order, when
/// the tree divides `area`.
pub fn leaf_rects(node: &LayoutNode, area: Rect, out: &mut Vec<Rect>)
    requires
        tree_fits(*node),
    ensures
        final(out)@.len() == old(out)@.len() + leaf_count(*node),
        final(out)@.subrange(0, old(out)@.len() as int) == old(out)@,
        *node is Pane ==> final(out)@ == old(out)@.push(area),
        forall|k: int|
            old(out)@.len() <= k < final(out)@.len() ==> rect_inside(#[trigger] final(out)@[k], area),
        placed(*node, area, final(out)@.subrange(old(out)@.len() as int, final(out)@.len() as int)),
    decreases node, 1nat,
{
    match node {
        LayoutNode::Pane => {
            let ghost before = out@;
            out.push(area);
            assert(out@.subrange(before.len() as int, out@.len() as int) =~= seq![area]);
        },
        LayoutNode::Split { axis, weights, children } => {
            let ratios = split_ratios(weights);
            let chunks = split_area(*axis, &ratios, area);
            proof {
                assert(decreases_to!(*node => node->children));
            }
            let ghost before = out@;
            place_children(children, &chunks, out);
            proof {
                assert forall|i: int| 0 <= i < weights@.len() implies #[trigger] chunk_of(
                    *axis,
                    area,
                    chunks@[i],
                ) by {}
                assert(chunks_of(*axis, weights@.len(), area, chunks@));
            }
        },
    }
    proof {
        placed_panes_lie_inside(
            *node,
            area,
            out@.subrange(old(out)@.len() as int, out@.len() as int),
        );
        assert forall|k: int| old(out)@.len() <= k < out@.len() implies rect_inside(
            #[trigger] out@[k],
            area,
        ) by {
            assert(out@[k] == out@.subrange(old(out)@.len() as int, out@.len() as int)[k - old(out)@.len()]);
        }
    }
}

/// Appends the pane rectangles of each child, dividing the matching chunk,
/// for as many children as there are chunks.
pub fn place_children(children: &Vec<LayoutNode>, chunks: &Vec<Rect>, out: &mut Vec<Rect>)
    requires
        children_fit(children@, placed_children(children@.len(), chunks@.len())),
    ensures
        final(out)@.len() == old(out)@.len() + children_leaf_count(
            children@,
            placed_children(children@.len(), chunks@.len()),
        ),
        final(out)@.subrange(0, old(out)@.len() as int) == old(out)@,
        children_placed(
            children@,
            chunks@,
            placed_children(children@.len(), chunks@.len()),
            final(out)@.subrange(old(out)@.len() as int, final(out)@.len() as int),
        ),
    decreases children, 0nat,
{
    let n = if children.len() < chunks.len() { children.len() } else { chunks.len() };
    let ghost start = out@;
    let mut i: usize = 0;
    while i < n
        invariant
            n == placed_children(children@.len(), chunks@.len()),
            n <= children@.len(),
            n <= chunks@.len(),
            i <= n,
            children_fit(children@, n as int),
            out@.len() == start.len() + children_leaf_count(children@, i as int),
            out@.subrange(0, start.len() as int) == start,
            children_placed(children@, chunks@, i as int, out@.subrange(start.len() as int, out@.len() as int)),
        decreases n - i,
    {
        proof {
            assert(decreases_to!(*children => children@));
            assert(decreases_to!(children@ => children@[i as int]));
            lemma_children_fit_each(children@, n as int, i as int);
        }
        let ghost before = out@;
        leaf_rects(&children[i], chunks[i], out);
        proof {
            assert(out@.subrange(0, start.len() as int) =~= before.subrange(0, start.len() as int));
            let part = out@.subrange(start.len() as int, out@.len() as int);
            let kk = children_leaf_count(children@, i as int);
            assert(part.take(kk as int) =~= before.subrange(start.len() as int, before.len() as int));
            assert(part.skip(kk as int) =~= out@.subrange(before.len() as int, out@.len() as int));
            assert(children_placed(children@, chunks@, i + 1, part));
        }
        i = i + 1;
    }
}

proof fn lemma_children_fit_each(children: Seq<LayoutNode>, n: int, i: int)
    requires
        0 <= i < n <= children.len(),
        children_fit(children, n),
    ensures
        tree_fits(children[i]),
    decreases n,
{
    if i < n - 1 {
        lemma_children_fit_each(children, n - 1, i);
    }
}

/// Whatever a tree places in an area: one rectangle per pane, each within
/// the area.
pub proof fn placed_panes_lie_inside(node: LayoutNode, area: Rect, rects: Seq<Rect>)
    requires
        placed(node, area, rects),
    ensures
        rects.len() == leaf_count(node),
        forall|k: int| 0 <= k < rects.len() ==> rect_inside(#[trigger] rects[k], area),
    decreases node, 0nat,
{
    match node {
        LayoutNode::Pane => {},
        LayoutNode::Split { axis, weights, children } => {
            let chunks = choose|chunks: Seq<Rect>|
                #[trigger] chunks_of(axis, weights@.len(), area, chunks) && children_placed(
                    children@,
                    chunks,
                    placed_children(children@.len(), weights@.len()),
                    rects,
                );
            assert forall|j: int| 0 <= j < chunks.len() implies rect_inside(#[trigger] chunks[j], area) by {
                assert(chunk_of(axis, area, chunks[j]));
            }
            assert(decreases_to!(node => node->children));
            lemma_children_placed_inside(
                children@,
                chunks,
                placed_children(children@.len(), weights@.len()),
                rects,
                area,
            );
        },
    }
}

proof fn lemma_children_placed_inside(
    children: Seq<LayoutNode>,
    chunks: Seq<Rect>,
    n: int,
    rects: Seq<Rect>,
    bound: Rect,
)
    requires
        children_placed(children, chunks, n, rects),
        n <= chunks.len(),
        forall|j: int| 0 <= j < chunks.len() ==> rect_inside(#[trigger] chunks[j], bound),
    ensures
        rects.len() == children_leaf_count(children, n),
        forall|k: int| 0 <= k < rects.len() ==> rect_inside(#[trigger] rects[k], bound),
    decreases children, n,
{
    if n > 0 && n <= children.len() {
        let k = children_leaf_count(children, n - 1);
        lemma_children_placed_inside(children, chunks, n - 1, rects.take(k as int), bound);
        placed_panes_lie_inside(children[n - 1], chunks[n - 1], rects.skip(k as int));
        assert(rect_inside(chunks[n - 1], bound));
        assert forall|i: int| 0 <= i < rects.len() implies rect_inside(#[trigger] rects[i], bound) by {
            if i < k {
                assert(rects[i] == rects.take(k as int)[i]);
            } else {
                assert(rects[i] == rects.skip(k as int)[i - k]);
            }
        }
    }
}

// ---------------------------------------------------------------------------
// Laws of the presets

proof fn lemma_row_leaves(children: Seq<LayoutNode>, k: int)
    requires
        0 <= k <= children.len(),
        forall|i: int| 0 <= i < children.len() ==> #[trigger] children[i] is Pane,
    ensures
        children_leaf_count(children, k) == k,
        children_fit(children, k),
    decreases k,
{
    if k > 0 {
        lemma_row_leaves(children, k - 1);
        assert(children[k - 1] is Pane);
        assert(leaf_count(children[k - 1]) == 1);
        assert(tree_fits(children[k - 1]));
    }
}

proof fn lemma_ones_total(n: nat)
    ensures
        weight_total(Seq::new(n, |i: int| 1u16)) == n,
    decreases n,
{
    if n > 0 {
        lemma_ones_total((n - 1) as nat);
        assert(Seq::new(n, |i: int| 1u16).drop_last() =~= Seq::new((n - 1) as nat, |i: int| 1u16));
    }
}

proof fn lemma_row(node: LayoutNode, n: nat)
    requires
        is_row_of(node, n),
        n <= u32::MAX,
    ensures
        leaf_count(node) == n,
        tree_fits(node),
{
    lemma_ones_total(n);
    lemma_row_leaves(node->children@, n as int);
}

proof fn lemma_grid_rows(rows: Seq<LayoutNode>, k: int, cols: nat)
    requires
        0 <= k <= rows.len(),
        cols <= u32::MAX,
        forall|i: int| 0 <= i < rows.len() ==> is_row_of(#[trigger] rows[i], cols),
    ensures
        children_leaf_count(rows, k) == k * cols,
        children_fit(rows, k),
    decreases k,
{
    if k > 0 {
        lemma_grid_rows(rows, k - 1, cols);
        assert(is_row_of(rows[k - 1], cols));
        lemma_row(rows[k - 1], cols);
        assert(children_leaf_count(rows, k) == children_leaf_count(rows, k - 1) + leaf_count(rows[k - 1]));
        assert((k - 1) * cols + cols == k * cols) by (nonlinear_arith);
    } else {
        assert(0 * cols == 0);
    }
}

/// Each preset's tree places exactly as many panes as the preset has, and
/// its weights fit, so it can always be divided.
pub proof fn preset_tree_places_every_pane(preset: LayoutPreset, node: LayoutNode)
    requires
        preset_shape(preset, node),
    ensures
        leaf_count(node) == pane_count_spec(preset),
        tree_fits(node),
{
    match preset {
        LayoutPreset::Two => lemma_row(node, 2),
        LayoutPreset::TwoByTwo => {
            lemma_ones_total(2);
            lemma_grid_rows(node->children@, 2, 2);
        },
        LayoutPreset::ThreeByFour => {
            lemma_ones_total(4);
            lemma_grid_rows(node->children@, 4, 3);
        },
        LayoutPreset::FourByFour => {
            lemma_ones_total(4);
            lemma_grid_rows(node->children@, 4, 4);
        },
    }
}

impl LayoutPreset {
    /// The rectangle of each pane of the preset in `area`, in pane order:
    /// what the preset's tree places there; every one lies within the area.
    pub fn pane_rects(&self, area: Rect) -> (r: Vec<Rect>)
        ensures
            r@.len() == pane_count_spec(*self),
            forall|k: int| 0 <= k < r@.len() ==> rect_inside(#[trigger] r@[k], area),
            exists|node: LayoutNode| preset_shape(*self, node) && #[trigger] placed(node, area, r@),
    {
        let node = self.tree();
        proof {
            preset_tree_places_every_pane(*self, node);
        }
        let mut out: Vec<Rect> = Vec::new();
        leaf_rects(&node, area, &mut out);
        assert(out@.subrange(0, out@.len() as int) =~= out@);
        assert(placed(node, area, out@));
        out
    }
}

/// The name a preset is written as selects that preset again.
pub proof fn preset_name_selects_preset(preset: LayoutPreset)
    ensures
        preset_from_name(preset_name(preset)) == preset,
{
    let two = seq!['2'];
    let two_one = seq!['2', 'x', '1'];
    let two_two = seq!['2', 'x', '2'];
    let three_four = seq!['3', 'x', '4'];
    let four_four = seq!['4', 'x', '4'];
    assert(two_two[2] != two_one[2]);
    assert(three_four[0] != two_one[0] && three_four[0] != two_two[0]);
    assert(four_four[0] != two_one[0] && four_four[0] != two_two[0] && four_four[0] != three_four[0]);
    assert(two.len() != two_one.len());
}

// ---------------------------------------------------------------------------
// Panes of the configuration

/// What a pane of the configuration runs: a command line, or a title and a
/// command line, each optional.
#[derive(Clone, Debug)]
pub enum PaneSpec {
    Command(String),
    Detailed { title: Option<String>, command: Option<String> },
}

/// The text, trimmed, unless nothing is left of it.
pub open spec fn non_empty_spec(value: Seq<char>) -> Option<Seq<char>> {
    if trim_spec(value).len() == 0 {
        None
    } else {
        Some(trim_spec(value))
    }
}

pub open spec fn opt_text(value: Option<String>) -> Option<Seq<char>> {
    match value {
        Some(s) => non_empty_spec(s@),
        None => None,
    }
}

pub open spec fn str_view(value: Option<&str>) -> Option<Seq<char>> {
    match value {
        Some(s) => Some(s@),
        None => None,
    }
}

/// The command a pane runs: its command line, trimmed, if anything is left.
pub open spec fn command_spec(spec: PaneSpec) -> Option<Seq<char>> {
    match spec {
        PaneSpec::Command(command) => non_empty_spec(command@),
        PaneSpec::Detailed { command, .. } => opt_text(command),
    }
}

/// A pane's title: its title if it has one that is not blank, else its
/// command line, trimmed, if anything is left.
pub open spec fn title_spec(spec: PaneSpec) -> Option<Seq<char>> {
    match spec {
        PaneSpec::Command(command) => non_empty_spec(command@),
        PaneSpec::Detailed { title, command } => match opt_text(title) {
            Some(t) => Some(t),
            None => opt_text(command),
        },
    }
}

/// `value`, trimmed, unless nothing is left of it.
pub fn non_empty(value: &str) -> (r: Option<&str>)
    ensures
        str_view(r) == non_empty_spec(value@),
{
    let trimmed = trim(value);
    if trimmed.is_empty() {
        None
    } else {
        Some(trimmed)
    }
}

fn opt_non_empty(value: &Option<String>) -> (r: Option<&str>)
    ensures
        str_view(r) == opt_text(*value),
{
    match value {
        Some(s) => non_empty(s.as_str()),
        None => None,
    }
}

impl PaneSpec {
    pub fn command(&self) -> (r: Option<&str>)
        ensures
            str_view(r) == command_spec(*self),
    {
        match self {
            PaneSpec::Command(command) => non_empty(command.as_str()),
            PaneSpec::Detailed { command, .. } => opt_non_empty(command),
        }
    }

    pub fn title(&self) -> (r: Option<&str>)
        ensures
            str_view(r) == title_spec(*self),
    {
        match self {
            PaneSpec::Command(command) => non_empty(command.as_str()),
            PaneSpec::Detailed { title, command } => match opt_non_empty(title) {
                Some(t) => Some(t),
                None => opt_non_empty(command),
            },
        }
    }
}

pub open spec fn owned_view(value: Option<String>) -> Option<Seq<char>> {
    match value {
        Some(s) => Some(s@),
        None => None,
    }
}

/// The command pane `idx` runs: that of its entry in the configuration; a
/// pane past the last entry runs none, and so opens the shell.
pub open spec fn pane_command_spec(panes: Seq<PaneSpec>, idx: int) -> Option<Seq<char>> {
    if 0 <= idx < panes.len() {
        command_spec(panes[idx])
    } else {
        None
    }
}

/// The title pane `idx` shows: that of its entry in the configuration, else
/// `Pane ` and its number counted from one.
pub open spec fn pane_title_spec(panes: Seq<PaneSpec>, idx: nat) -> Seq<char> {
    match (if idx < panes.len() { title_spec(panes[idx as int]) } else { None }) {
        Some(t) => t,
        None => seq!['P', 'a', 'n', 'e', ' '] + decimal(idx + 1),
    }
}

/// The command pane `idx` runs, by the configuration's pane list.
pub fn pane_command(panes: &Vec<PaneSpec>, idx: usize) -> (r: Option<String>)
    ensures
        owned_view(r) == pane_command_spec(panes@, idx as int),
{
    if idx < panes.len() {
        match panes[idx].command() {
            Some(c) => Some(c.to_owned()),
            None => None,
        }
    } else {
        None
    }
}

/// The title pane `idx` shows, by the configuration's pane list.
pub fn pane_title(panes: &Vec<PaneSpec>, idx: usize) -> (r: String)
    requires
        idx < usize::MAX,
    ensures
        r@ == pane_title_spec(panes@, idx as nat),
        r@.len() > 0,
{
    let given = if idx < panes.len() {
        panes[idx].title()
    } else {
        None
    };
    match given {
        Some(t) => t.to_owned(),
        None => {
            proof {
                reveal_strlit("Pane ");
                assert("Pane "@ =~= seq!['P', 'a', 'n', 'e', ' ']);
            }
            let mut out = "Pane ".to_owned();
            push_decimal(&mut out, idx + 1);
            out
        },
    }
}

/// What a pane runs comes from its command alone: a title never changes
/// it, a pane without a command (or with a blank one) runs nothing and so
/// opens the shell, and a command line runs trimmed. A pane given as a bare
/// command line runs it and shows it as its title.
pub proof fn title_never_runs(
    title: Option<String>,
    other: Option<String>,
    command: Option<String>,
    line: String,
)
    ensures
        command_spec(PaneSpec::Detailed { title, command }) == command_spec(
            PaneSpec::Detailed { title: other, command },
        ),
        command_spec(PaneSpec::Detailed { title, command: None }) is None,
        command_spec(PaneSpec::Detailed { title, command }) matches Some(run) ==> {
            &&& command is Some
            &&& run == trim_spec(command->0@)
            &&& run.len() > 0
        },
        command matches Some(c) ==> (trim_spec(c@).len() > 0 <==> command_spec(
            PaneSpec::Detailed { title, command },
        ) is Some),
        command_spec(PaneSpec::Command(line)) == title_spec(PaneSpec::Command(line)),
        command_spec(PaneSpec::Command(line)) is Some ==> command_spec(PaneSpec::Command(line))
            == Some(trim_spec(line@)),
{
}

/// A pane's title is its title, trimmed, when that is not blank; otherwise
/// it is its command line, trimmed, when that is not blank; otherwise none.
pub proof fn title_then_command(title: Option<String>, command: Option<String>)
    ensures
        title matches Some(t) ==> (trim_spec(t@).len() > 0 ==> title_spec(
            PaneSpec::Detailed { title, command },
        ) == Some(trim_spec(t@))),
        (title is None || trim_spec(title->0@).len() == 0) ==> title_spec(
            PaneSpec::Detailed { title, command },
        ) == (match command {
            Some(c) => if trim_spec(c@).len() > 0 { Some(trim_spec(c@)) } else { None },
            None => None,
        }),
{
}

/// A configuration with fewer entries than panes leaves the remaining panes
/// to the shell: they run no command.
pub proof fn panes_past_config_open_shell(panes: Seq<PaneSpec>, idx: int)
    requires
        idx >= panes.len(),
    ensures
        pane_command_spec(panes, idx) is None,
{
}

/// The shell panes run when the configuration names none.
pub fn default_shell() -> (shell: String)
    ensures
        shell@ == seq!['b', 'a', 's', 'h'],
{
    proof {
        reveal_strlit("bash");
        assert("bash"@ =~= seq!['b', 'a', 's', 'h']);
    }
    "bash".to_owned()
}

/// Colours of the window, each `#rrggbb`; unset ones keep their default.
#[derive(Clone, Debug, Default)]
pub struct ThemeConfig {
    pub background: Option<String>,
    pub pane_background: Option<String>,
    pub title_background: Option<String>,
    pub title_active_background: Option<String>,
    pub border: Option<String>,
    pub border_active: Option<String>,
    pub text: Option<String>,
    pub dim_text: Option<String>,
}

} // verus!
