//! The workflow types shared by the wizard's steps: the imported dataset
//! preview, the template cell preview, the mapping list and the result
//! summary of the last generation run.

use vstd::prelude::*;

verus! {

/// The preview of an imported dataset: header texts and a few sample rows.
#[derive(Clone, Debug)]
pub struct CsvPreview {
    pub headers: Vec<String>,
    pub sample_rows: Vec<Vec<String>>,
}

/// One previewed template cell: its address text and its current value.
#[derive(Clone, Debug)]
pub struct CellPreview {
    pub address: String,
    pub value: String,
}

/// One column-to-cell mapping with the column's display label.
#[derive(Clone, Debug)]
pub struct ColumnMapping {
    pub column_index: usize,
    pub column_label: String,
    pub cell_address: String,
}

/// The state one wizard run threads through its steps.
pub struct WorkflowState {
    pub csv_preview: Option<CsvPreview>,
    pub template_sheet_name: Option<String>,
    pub template_cells: Vec<CellPreview>,
    pub column_mappings: Vec<ColumnMapping>,
    pub generated_summary: Option<GenerationSummary>,
}

impl WorkflowState {
    /// A fresh state with nothing imported or selected.
    pub fn new() -> (r: WorkflowState)
        ensures
            r.csv_preview is None,
            r.template_sheet_name is None,
            r.template_cells@.len() == 0,
            r.column_mappings@.len() == 0,
            r.generated_summary is None,
    {
        WorkflowState {
            csv_preview: None,
            template_sheet_name: None,
            template_cells: Vec::new(),
            column_mappings: Vec::new(),
            generated_summary: None,
        }
    }
}

/// What the last generation run produced: how many sheets, and where.
#[derive(Clone, Debug)]
pub struct GenerationSummary {
    pub sheet_count: usize,
    pub output_path: String,
}

} // verus!
