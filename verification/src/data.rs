//! Workbooks as they arrive and leave: plain cells, before any formula is
//! read and after every formula is resolved.

use vstd::prelude::*;
use crate::types::float::Float;

verus! {

/// A workbook: where to send the results, and the sheets.
#[derive(Debug, PartialEq, Eq)]
pub struct RawData {
    pub submission_url: String,
    pub sheets: Vec<RawSheet>,
}

/// A sheet of plain cells.
#[derive(Debug, PartialEq, Eq)]
pub struct RawSheet {
    pub id: String,
    pub data: Vec<Vec<RawCellData>>,
}

/// A plain cell: a text, an integer, a double or a boolean.
#[derive(Debug, PartialEq, Eq)]
pub enum RawCellData {
    String(String),
    Int(i64),
    Float(Float),
    Bool(bool),
}

/// The mathematical content of a [`RawCellData`].
pub enum RawCellView {
    String(Seq<char>),
    Int(int),
    Float(int),
    Bool(bool),
}

impl View for RawCellData {
    type V = RawCellView;

    open spec fn view(&self) -> RawCellView {
        match self {
            RawCellData::String(s) => RawCellView::String(s@),
            RawCellData::Int(i) => RawCellView::Int(*i as int),
            RawCellData::Float(f) => RawCellView::Float(f@),
            RawCellData::Bool(b) => RawCellView::Bool(*b),
        }
    }
}

/// The contents of a row of plain cells.
pub open spec fn raw_views(row: Seq<RawCellData>) -> Seq<RawCellView> {
    Seq::new(row.len(), |i: int| row[i]@)
}

/// The contents of rows of plain cells.
pub open spec fn raw_grid(rows: Seq<Vec<RawCellData>>) -> Seq<Seq<RawCellView>> {
    Seq::new(rows.len(), |y: int| raw_views(rows[y]@))
}

/// The mathematical content of a [`RawSheet`].
pub struct RawSheetView {
    pub id: Seq<char>,
    pub data: Seq<Seq<RawCellView>>,
}

impl View for RawSheet {
    type V = RawSheetView;

    open spec fn view(&self) -> RawSheetView {
        RawSheetView { id: self.id@, data: raw_grid(self.data@) }
    }
}

} // verus!
