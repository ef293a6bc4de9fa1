//! The shared wizard state: the imported dataset, the chosen template, and
//! the column-to-cell mapping list that the generation steps read.

use vstd::prelude::*;

verus! {

/// One column-to-cell mapping: a source column index and the destination
/// cell's address text.
#[derive(Clone, Debug)]
pub struct CellMapping {
    pub column_index: usize,
    pub cell_ref: String,
}

impl CellMapping {
    /// A mapping from a source column to a destination cell text.
    pub fn new(column_index: usize, cell_ref: String) -> (r: CellMapping)
        ensures
            r.column_index == column_index,
            r.cell_ref@ == cell_ref@,
    {
        CellMapping { column_index, cell_ref }
    }
}

/// The preview of one imported column: its index, its header text and a few
/// sample values.
#[derive(Clone, Debug)]
pub struct ColumnPreview {
    pub index: usize,
    pub header: String,
    pub samples: Vec<String>,
}

/// The state shared between the wizard's steps.
pub struct SharedState {
    pub csv_path: Option<String>,
    pub csv_has_headers: bool,
    pub csv_headers: Vec<String>,
    pub csv_rows: Vec<Vec<String>>,
    pub csv_preview: Vec<ColumnPreview>,
    pub odf_path: Option<String>,
    pub odf_sheet_names: Vec<String>,
    pub selected_sheet: Option<String>,
    pub template_cell_values: Vec<(String, String)>,
    pub cell_mappings: Vec<CellMapping>,
    pub last_output_path: Option<String>,
}

impl SharedState {
    /// A fresh state with nothing imported or selected.
    pub fn new() -> (r: SharedState)
        ensures
            r.csv_path is None,
            !r.csv_has_headers,
            r.csv_headers@.len() == 0,
            r.csv_rows@.len() == 0,
            r.csv_preview@.len() == 0,
            r.odf_path is None,
            r.odf_sheet_names@.len() == 0,
            r.selected_sheet is None,
            r.template_cell_values@.len() == 0,
            r.cell_mappings@.len() == 0,
            r.last_output_path is None,
    {
        SharedState {
            csv_path: None,
            csv_has_headers: false,
            csv_headers: Vec::new(),
            csv_rows: Vec::new(),
            csv_preview: Vec::new(),
            odf_path: None,
            odf_sheet_names: Vec::new(),
            selected_sheet: None,
            template_cell_values: Vec::new(),
            cell_mappings: Vec::new(),
            last_output_path: None,
        }
    }

    /// Forgets everything the dataset import produced, the mapping list
    /// included; the template choice is kept.
    pub fn reset_csv(&mut self)
        ensures
            final(self).csv_path is None,
            !final(self).csv_has_headers,
            final(self).csv_headers@.len() == 0,
            final(self).csv_rows@.len() == 0,
            final(self).csv_preview@.len() == 0,
            final(self).cell_mappings@.len() == 0,
            final(self).odf_path == old(self).odf_path,
            final(self).odf_sheet_names == old(self).odf_sheet_names,
            final(self).selected_sheet == old(self).selected_sheet,
            final(self).template_cell_values == old(self).template_cell_values,
            final(self).last_output_path == old(self).last_output_path,
    {
        self.csv_path = None;
        self.csv_headers.clear();
        self.csv_rows.clear();
        self.csv_preview.clear();
        self.csv_has_headers = false;
        self.cell_mappings.clear();
    }

    /// Forgets the template choice and empties every mapping's destination
    /// text, keeping the mapping rows and the imported dataset.
    pub fn reset_template(&mut self)
        ensures
            final(self).odf_path is None,
            final(self).odf_sheet_names@.len() == 0,
            final(self).selected_sheet is None,
            final(self).template_cell_values@.len() == 0,
            final(self).cell_mappings@.len() == old(self).cell_mappings@.len(),
            forall|k: int|
                0 <= k < final(self).cell_mappings@.len() ==> {
                    &&& (#[trigger] final(self).cell_mappings@[k]).column_index == old(
                        self,
                    ).cell_mappings@[k].column_index
                    &&& final(self).cell_mappings@[k].cell_ref@.len() == 0
                },
            final(self).csv_path == old(self).csv_path,
            final(self).csv_has_headers == old(self).csv_has_headers,
            final(self).csv_headers == old(self).csv_headers,
            final(self).csv_rows == old(self).csv_rows,
            final(self).csv_preview == old(self).csv_preview,
            final(self).last_output_path == old(self).last_output_path,
    {
        self.odf_path = None;
        self.odf_sheet_names.clear();
        self.selected_sheet = None;
        self.template_cell_values.clear();
        let n = self.cell_mappings.len();
        let mut k: usize = 0;
        while k < n
            invariant
                k <= n,
                n == self.cell_mappings@.len(),
                forall|j: int|
                    0 <= j < k ==> {
                        &&& (#[trigger] self.cell_mappings@[j]).column_index == old(
                            self,
                        ).cell_mappings@[j].column_index
                        &&& self.cell_mappings@[j].cell_ref@.len() == 0
                    },
                forall|j: int|
                    k <= j < n ==> #[trigger] self.cell_mappings@[j] == old(
                        self,
                    ).cell_mappings@[j],
                self.csv_path == old(self).csv_path,
                self.csv_has_headers == old(self).csv_has_headers,
                self.csv_headers == old(self).csv_headers,
                self.csv_rows == old(self).csv_rows,
                self.csv_preview == old(self).csv_preview,
                self.last_output_path == old(self).last_output_path,
                self.odf_path is None,
                self.odf_sheet_names@.len() == 0,
                self.selected_sheet is None,
                self.template_cell_values@.len() == 0,
            decreases n - k,
        {
            let idx = self.cell_mappings[k].column_index;
            self.cell_mappings.set(k, CellMapping { column_index: idx, cell_ref: String::new() });
            k += 1;
        }
    }

    /// Keeps exactly one mapping row per imported column: extra rows are
    /// dropped and missing rows are added with an empty destination, each new
    /// row bound to its own column index.
    pub fn ensure_cell_mappings(&mut self)
        ensures
            final(self).cell_mappings@.len() == old(self).csv_headers@.len(),
            forall|k: int|
                0 <= k < final(self).cell_mappings@.len() && k < old(self).cell_mappings@.len()
                    ==> #[trigger] final(self).cell_mappings@[k] == old(self).cell_mappings@[k],
            forall|k: int|
                old(self).cell_mappings@.len() <= k < final(self).cell_mappings@.len() ==> {
                    &&& (#[trigger] final(self).cell_mappings@[k]).column_index == k
                    &&& final(self).cell_mappings@[k].cell_ref@.len() == 0
                },
            final(self).csv_path == old(self).csv_path,
            final(self).csv_has_headers == old(self).csv_has_headers,
            final(self).csv_headers == old(self).csv_headers,
            final(self).csv_rows == old(self).csv_rows,
            final(self).csv_preview == old(self).csv_preview,
            final(self).odf_path == old(self).odf_path,
            final(self).odf_sheet_names == old(self).odf_sheet_names,
            final(self).selected_sheet == old(self).selected_sheet,
            final(self).template_cell_values == old(self).template_cell_values,
            final(self).last_output_path == old(self).last_output_path,
    {
        let target = self.csv_headers.len();
        if self.cell_mappings.len() > target {
            self.cell_mappings.truncate(target);
        }
        while self.cell_mappings.len() < target
            invariant
                self.cell_mappings@.len() <= target,
                target == old(self).csv_headers@.len(),
                old(self).cell_mappings@.len() <= self.cell_mappings@.len()
                    || self.cell_mappings@.len() == target,
                forall|k: int|
                    0 <= k < self.cell_mappings@.len() && k < old(self).cell_mappings@.len()
                        ==> #[trigger] self.cell_mappings@[k] == old(self).cell_mappings@[k],
                forall|k: int|
                    old(self).cell_mappings@.len() <= k < self.cell_mappings@.len() ==> {
                        &&& (#[trigger] self.cell_mappings@[k]).column_index == k
                        &&& self.cell_mappings@[k].cell_ref@.len() == 0
                    },
                self.csv_path == old(self).csv_path,
                self.csv_has_headers == old(self).csv_has_headers,
                self.csv_headers == old(self).csv_headers,
                self.csv_rows == old(self).csv_rows,
                self.csv_preview == old(self).csv_preview,
                self.odf_path == old(self).odf_path,
                self.odf_sheet_names == old(self).odf_sheet_names,
                self.selected_sheet == old(self).selected_sheet,
                self.template_cell_values == old(self).template_cell_values,
                self.last_output_path == old(self).last_output_path,
            decreases target - self.cell_mappings@.len(),
        {
            let column_index = self.cell_mappings.len();
            self.cell_mappings.push(CellMapping { column_index, cell_ref: String::new() });
        }
    }
}

} // verus!
