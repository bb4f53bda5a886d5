//! The table builder: rows of non-empty cells, through `thead` and `tbody`.
use vstd::prelude::*;
use crate::attrs::{attr_width_height, dimension};
use crate::dom::{DomNode, children_of};
use crate::inline::{inline_para, inline_paragraph};
use crate::node::{CellV, Table, TableCell, TableRow};
use crate::text::str_eq;

verus! {

/// A `td` or `th` element with at least one child.
pub open spec fn is_cell(n: DomNode) -> bool {
    n matches DomNode::Element { name, children, .. } && (name@ == "td"@ || name@ == "th"@)
        && children@.len() > 0
}

/// The cell that an element gives: its inline content and its width.
pub open spec fn cell_of(n: DomNode) -> CellV {
    match n {
        DomNode::Element { attrs, children, .. } => CellV {
            content: inline_para(children@),
            width: dimension(attrs@, "width"@),
        },
        _ => CellV { content: Seq::empty(), width: None },
    }
}

/// The cells of a row, from the row's children.
pub open spec fn row_cells(cs: Seq<DomNode>) -> Seq<CellV>
    decreases cs.len(),
{
    if cs.len() == 0 {
        Seq::empty()
    } else if is_cell(cs.last()) {
        row_cells(cs.drop_last()).push(cell_of(cs.last()))
    } else {
        row_cells(cs.drop_last())
    }
}

/// The rows that a row candidate adds: one row if it has a cell, else none.
pub open spec fn row_of(n: DomNode) -> Seq<Seq<CellV>> {
    let cells = row_cells(children_of(n));
    if cells.len() > 0 {
        seq![cells]
    } else {
        Seq::empty()
    }
}

/// The rows of a sequence of row candidates.
pub open spec fn rows_of(cs: Seq<DomNode>) -> Seq<Seq<CellV>>
    decreases cs.len(),
{
    if cs.len() == 0 {
        Seq::empty()
    } else {
        rows_of(cs.drop_last()) + row_of(cs.last())
    }
}

/// A `tbody` or `thead` element, whose children are row candidates.
pub open spec fn is_section(n: DomNode) -> bool {
    n matches DomNode::Element { name, .. } && (name@ == "tbody"@ || name@ == "thead"@)
}

/// The rows of a table from the table element's children.
pub open spec fn table_rows(cs: Seq<DomNode>) -> Seq<Seq<CellV>>
    decreases cs.len(),
{
    if cs.len() == 0 {
        Seq::empty()
    } else if is_section(cs.last()) {
        table_rows(cs.drop_last()) + rows_of(children_of(cs.last()))
    } else {
        table_rows(cs.drop_last()) + row_of(cs.last())
    }
}

fn is_cell_node(n: &DomNode) -> (r: bool)
    ensures
        r == is_cell(*n),
{
    match n {
        DomNode::Element { name, children, .. } => (str_eq(name.as_str(), "td") || str_eq(name.as_str(), "th"))
            && children.len() > 0,
        _ => false,
    }
}

/// Adds the cell for a `td` or `th` element to a row.
pub fn parse_table_cell(row: &mut TableRow, node: &DomNode)
    ensures
        final(row)@ == old(row)@.push(cell_of(*node)),
{
    let cell = match node {
        DomNode::Element { attrs, children, .. } => {
            let content = inline_paragraph(children);
            let width = attr_width_height(attrs).0;
            TableCell { content, width }
        },
        _ => TableCell { content: crate::node::Paragraph::new(), width: None },
    };
    let ghost r0 = old(row)@;
    row.cells.push(cell);
    assert(row@ =~= r0.push(cell_of(*node)));
}

/// The row built from a row element's children.
fn row_from(children: &Vec<DomNode>) -> (r: TableRow)
    ensures
        r@ == row_cells(children@),
{
    let mut row = TableRow { cells: Vec::new() };
    let mut i: usize = 0;
    assert(row@ =~= Seq::<CellV>::empty());
    while i < children.len()
        invariant
            i <= children.len(),
            row@ == row_cells(children@.subrange(0, i as int)),
        decreases children.len() - i,
    {
        let child = &children[i];
        assert(children@.subrange(0, i + 1).drop_last() =~= children@.subrange(0, i as int));
        if is_cell_node(child) {
            parse_table_cell(&mut row, child);
        }
        i = i + 1;
    }
    assert(children@.subrange(0, children.len() as int) =~= children@);
    row
}

/// Adds the row that a row candidate gives, if it has a non-empty cell.
pub fn parse_table_row(table: &mut Table, node: &DomNode)
    ensures
        final(table)@ == old(table)@ + row_of(*node),
{
    let row = match node {
        DomNode::Document { children } => row_from(children),
        DomNode::Element { children, .. } => row_from(children),
        _ => {
            assert(row_cells(Seq::<DomNode>::empty()) =~= Seq::<CellV>::empty());
            TableRow { cells: Vec::new() }
        },
    };
    if row.cells.len() > 0 {
        let ghost t0 = table@;
        let ghost rv = row@;
        table.rows.push(row);
        assert(table@ =~= t0 + seq![rv]);
    } else {
        assert(table@ =~= table@ + Seq::<Seq<CellV>>::empty());
    }
}

fn is_section_node(n: &DomNode) -> (r: bool)
    ensures
        r == is_section(*n),
{
    match n {
        DomNode::Element { name, .. } => str_eq(name.as_str(), "tbody") || str_eq(name.as_str(), "thead"),
        _ => false,
    }
}

/// Builds a table from the children of a table element.
pub fn parse_table(children: &Vec<DomNode>) -> (r: Table)
    ensures
        r@ == table_rows(children@),
{
    let mut table = Table { rows: Vec::new() };
    assert(table@ =~= Seq::<Seq<CellV>>::empty());
    let mut i: usize = 0;
    while i < children.len()
        invariant
            i <= children.len(),
            table@ == table_rows(children@.subrange(0, i as int)),
        decreases children.len() - i,
    {
        let child = &children[i];
        assert(children@.subrange(0, i + 1).drop_last() =~= children@.subrange(0, i as int));
        if let (true, DomNode::Element { children: rows, .. }) = (is_section_node(child), child) {
            let ghost t0 = table@;
            let mut j: usize = 0;
            while j < rows.len()
                invariant
                    j <= rows.len(),
                    rows@ == children_of(*child),
                    table@ == t0 + rows_of(rows@.subrange(0, j as int)),
                decreases rows.len() - j,
            {
                assert(rows@.subrange(0, j + 1).drop_last() =~= rows@.subrange(0, j as int));
                parse_table_row(&mut table, &rows[j]);
                assert(table@ =~= t0 + rows_of(rows@.subrange(0, j + 1)));
                j = j + 1;
            }
            assert(rows@.subrange(0, rows.len() as int) =~= rows@);
        } else {
            parse_table_row(&mut table, child);
        }
        i = i + 1;
    }
    assert(children@.subrange(0, children.len() as int) =~= children@);
    table
}


/// A `td` or `th` element without child nodes gives no cell: the row is
/// built as if it were not there.
pub proof fn lemma_empty_cell_skipped(cs: Seq<DomNode>, cell: DomNode)
    requires
        children_of(cell).len() == 0,
    ensures
        row_cells(cs.push(cell)) == row_cells(cs),
{
    assert(cs.push(cell).drop_last() =~= cs);
}

proof fn lemma_rows_of_have_cells(cs: Seq<DomNode>)
    ensures
        forall|i: int| 0 <= i < rows_of(cs).len() ==> #[trigger] rows_of(cs)[i].len() > 0,
    decreases cs.len(),
{
    if cs.len() > 0 {
        lemma_rows_of_have_cells(cs.drop_last());
        let a = rows_of(cs.drop_last());
        let b = row_of(cs.last());
        assert forall|i: int| 0 <= i < (a + b).len() implies #[trigger] (a + b)[i].len() > 0 by {
            if i >= a.len() {
                assert(b[i - a.len()].len() > 0);
            }
        }
    }
}

/// Every row of a table holds at least one cell: a row candidate whose
/// children give no cell is left out of the table.
pub proof fn lemma_table_rows_have_cells(cs: Seq<DomNode>)
    ensures
        forall|i: int| 0 <= i < table_rows(cs).len() ==> #[trigger] table_rows(cs)[i].len() > 0,
    decreases cs.len(),
{
    if cs.len() > 0 {
        lemma_table_rows_have_cells(cs.drop_last());
        let a = table_rows(cs.drop_last());
        if is_section(cs.last()) {
            lemma_rows_of_have_cells(children_of(cs.last()));
        }
        let b = if is_section(cs.last()) {
            rows_of(children_of(cs.last()))
        } else {
            row_of(cs.last())
        };
        assert(table_rows(cs) == a + b);
        assert forall|i: int| 0 <= i < (a + b).len() implies #[trigger] (a + b)[i].len() > 0 by {
            if i >= a.len() {
                assert(b[i - a.len()].len() > 0);
            }
        }
    }
}

} // verus!
