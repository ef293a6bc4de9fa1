//! The wizard's step modules, stripped of their on-screen concerns: each
//! holds the step's own state and the decisions the step makes; drawing and
//! file dialogs are the graphical shell's business.

use vstd::prelude::*;

use crate::cell::dec_digits;
use crate::cell::dec_string;
use crate::errors::GenError;
use crate::state::SharedState;
use crate::workflow::CellPreview;
use crate::workflow::ColumnMapping;
use crate::workflow::CsvPreview;
use crate::workflow::GenerationSummary;
use crate::workflow::WorkflowState;

verus! {

/// Whether a text holds nothing but whitespace.
pub open spec fn blank_text(s: Seq<char>) -> bool {
    forall|i: int|
        0 <= i < s.len() ==> (#[trigger] s[i] == ' ' || s[i] == '\t' || s[i] == '\r' || s[i]
            == '\n')
}

/// Tests whether a text holds nothing but whitespace.
pub fn is_blank(s: &str) -> (r: bool)
    ensures
        r == blank_text(s@),
{
    let n = s.unicode_len();
    let mut i: usize = 0;
    while i < n
        invariant
            i <= n,
            n == s@.len(),
            forall|j: int|
                0 <= j < i ==> (#[trigger] s@[j] == ' ' || s@[j] == '\t' || s@[j] == '\r' || s@[j]
                    == '\n'),
        decreases n - i,
    {
        let c = s.get_char(i);
        if !(c == ' ' || c == '\t' || c == '\r' || c == '\n') {
            assert(!blank_text(s@));
            return false;
        }
        i += 1;
    }
    true
}

/// Copies a row of text values.
pub fn clone_row(v: &Vec<String>) -> (r: Vec<String>)
    ensures
        r@.len() == v@.len(),
        forall|i: int| 0 <= i < v@.len() ==> (#[trigger] r@[i])@ == v@[i]@,
{
    let mut out: Vec<String> = Vec::new();
    let mut i: usize = 0;
    while i < v.len()
        invariant
            i <= v@.len(),
            out@.len() == i,
            forall|j: int| 0 <= j < i ==> (#[trigger] out@[j])@ == v@[j]@,
        decreases v@.len() - i,
    {
        out.push(v[i].clone());
        i += 1;
    }
    out
}

/// Whether two previewed cell lists agree address for address and value
/// for value.
pub open spec fn cells_match(r: Seq<CellPreview>, cs: Seq<CellPreview>) -> bool {
    r.len() == cs.len() && forall|j: int|
        0 <= j < r.len() ==> ((#[trigger] r[j]).address@ == cs[j].address@ && r[j].value@
            == cs[j].value@)
}

/// Copies a list of previewed cells.
pub fn clone_cells(v: &Vec<CellPreview>) -> (r: Vec<CellPreview>)
    ensures
        cells_match(r@, v@),
{
    let mut out: Vec<CellPreview> = Vec::new();
    let mut i: usize = 0;
    while i < v.len()
        invariant
            i <= v@.len(),
            out@.len() == i,
            forall|j: int|
                0 <= j < i ==> (#[trigger] out@[j]).address@ == v@[j].address@ && out@[j].value@
                    == v@[j].value@,
        decreases v@.len() - i,
    {
        out.push(
            CellPreview { address: v[i].address.clone(), value: v[i].value.clone() },
        );
        i += 1;
    }
    out
}

/// The placeholder step used while a wizard slot has no real work yet: it
/// only remembers whether its button was pressed.
pub struct TestUiModule {
    pub completed: bool,
}

impl TestUiModule {
    pub fn new() -> (r: TestUiModule)
        ensures
            !r.completed,
    {
        TestUiModule { completed: false }
    }

    pub fn get_title(&self) -> (r: String)
        ensures
            r@ == "Test"@,
    {
        "Test".to_owned()
    }

    /// Marks the step done; the shell calls this when its button is pressed.
    pub fn complete(&mut self)
        ensures
            final(self).completed,
    {
        self.completed = true;
    }

    pub fn is_complete(&self) -> (r: bool)
        ensures
            r == self.completed,
    {
        self.completed
    }

    pub fn reset(&mut self)
        ensures
            !final(self).completed,
    {
        self.completed = false;
    }
}

/// The dataset-import step: remembers the chosen file, the header flag and
/// the computed preview.
pub struct CsvImportModule {
    pub selected_file: Option<String>,
    pub treat_first_row_as_headers: bool,
    pub last_error: Option<String>,
    pub preview: Option<CsvPreview>,
}

impl CsvImportModule {
    pub fn new() -> (r: CsvImportModule)
        ensures
            r.selected_file is None,
            r.treat_first_row_as_headers,
            r.last_error is None,
            r.preview is None,
    {
        CsvImportModule {
            selected_file: None,
            treat_first_row_as_headers: true,
            last_error: None,
            preview: None,
        }
    }

    pub fn get_title(&self) -> (r: String)
        ensures
            r@ == "Import CSV file"@,
    {
        "Import CSV file".to_owned()
    }

    /// The preview of an already-parsed record list: the first record as
    /// headers when asked, and up to five of the remaining records as
    /// samples.  An empty record list is rejected.
    pub fn read_csv_preview(rows: &Vec<Vec<String>>, treat_first_row_as_headers: bool) -> (r:
        Result<CsvPreview, String>)
        ensures
            match r {
                Ok(p) => {
                    let data_start: int = if treat_first_row_as_headers {
                        1
                    } else {
                        0
                    };
                    let avail = rows@.len() - data_start;
                    let take: int = if avail < 5 {
                        avail
                    } else {
                        5
                    };
                    &&& rows@.len() > 0
                    &&& p.headers@.len() == (if treat_first_row_as_headers {
                        rows@[0]@.len() as int
                    } else {
                        0
                    })
                    &&& (treat_first_row_as_headers ==> forall|j: int|
                        0 <= j < p.headers@.len() ==> (#[trigger] p.headers@[j])@ == rows@[0]@[j]@)
                    &&& p.sample_rows@.len() == take
                    &&& (forall|i: int, j: int|
                        0 <= i < take && 0 <= j < p.sample_rows@[i]@.len() ==> (
                        #[trigger] p.sample_rows@[i]@[j])@ == rows@[data_start + i]@[j]@)
                    &&& (forall|i: int|
                        0 <= i < take ==> (#[trigger] p.sample_rows@[i])@.len() == rows@[data_start
                            + i]@.len())
                },
                Err(e) => rows@.len() == 0 && e@ == "The selected CSV does not contain any data"@,
            },
    {
        if rows.len() == 0 {
            return Err("The selected CSV does not contain any data".to_owned());
        }
        let headers: Vec<String> = if treat_first_row_as_headers {
            clone_row(&rows[0])
        } else {
            Vec::new()
        };
        let data_start: usize = if treat_first_row_as_headers {
            1
        } else {
            0
        };
        let avail = rows.len() - data_start;
        let take = if avail < 5 {
            avail
        } else {
            5
        };
        let mut sample_rows: Vec<Vec<String>> = Vec::new();
        let mut i: usize = 0;
        while i < take
            invariant
                i <= take,
                take <= rows@.len() - data_start,
                data_start <= rows@.len(),
                rows@.len() <= usize::MAX,
                sample_rows@.len() == i,
                forall|a: int|
                    0 <= a < i ==> (#[trigger] sample_rows@[a])@.len() == rows@[data_start
                        + a]@.len(),
                forall|a: int, j: int|
                    0 <= a < i && 0 <= j < sample_rows@[a]@.len() ==> (
                    #[trigger] sample_rows@[a]@[j])@ == rows@[data_start + a]@[j]@,
            decreases take - i,
        {
            sample_rows.push(clone_row(&rows[data_start + i]));
            i += 1;
        }
        Ok(CsvPreview { headers, sample_rows })
    }

    /// Recomputes the preview from parsed records, remembering the outcome.
    pub fn load_preview(&mut self, rows: &Vec<Vec<String>>)
        ensures
            final(self).selected_file == old(self).selected_file,
            final(self).treat_first_row_as_headers == old(self).treat_first_row_as_headers,
            rows@.len() > 0 ==> (final(self).last_error is None && final(self).preview is Some),
            rows@.len() == 0 ==> (final(self).preview == old(self).preview && (match final(self).last_error {
                Some(e) => e@ == "The selected CSV does not contain any data"@,
                None => false,
            })),
    {
        match Self::read_csv_preview(rows, self.treat_first_row_as_headers) {
            Ok(p) => {
                self.last_error = None;
                self.preview = Some(p);
            },
            Err(e) => {
                self.last_error = Some(e);
            },
        }
    }

    pub fn is_complete(&self) -> (r: bool)
        ensures
            r == (self.preview is Some),
    {
        match &self.preview {
            Some(_) => true,
            None => false,
        }
    }

    pub fn reset(&mut self)
        ensures
            final(self).selected_file is None,
            final(self).last_error is None,
            final(self).preview is None,
            final(self).treat_first_row_as_headers == old(self).treat_first_row_as_headers,
    {
        self.selected_file = None;
        self.last_error = None;
        self.preview = None;
    }
}

/// The template-import step: records what opening a workbook file yielded
/// into the shared state.
pub struct OdfImportModule {
    pub load_error: Option<String>,
    pub sheet_error: Option<String>,
}

impl OdfImportModule {
    pub fn new() -> (r: OdfImportModule)
        ensures
            r.load_error is None,
            r.sheet_error is None,
    {
        OdfImportModule { load_error: None, sheet_error: None }
    }

    pub fn get_title(&self) -> (r: String)
        ensures
            r@ == "Configure Template"@,
    {
        "Configure Template".to_owned()
    }

    /// Applies what opening a template yielded: the sheet names, with the
    /// first sheet selected and its cell values applied, or a read error.
    /// `sheet_names` and `cells` come from the caller's workbook reader.
    pub fn open_template(
        &mut self,
        state: &mut SharedState,
        path: String,
        names: Result<Vec<String>, String>,
        cells: Result<Vec<(String, String)>, String>,
    )
        ensures
            match names {
                Err(_) => (final(self).load_error is Some && *final(state) == *old(state)
                    && final(self).sheet_error == old(self).sheet_error),
                Ok(ref sheet_names) => {
                    &&& final(self).load_error is None
                    &&& (final(state).odf_path matches Some(p) && p@ == path@)
                    &&& final(state).odf_sheet_names == *sheet_names
                    &&& (sheet_names@.len() == 0 ==> (final(state).selected_sheet is None
                        && final(state).template_cell_values@.len() == 0))
                    &&& (sheet_names@.len() > 0 ==> (match final(state).selected_sheet {
                        Some(s) => s@ == sheet_names@[0]@,
                        None => false,
                    } && (match cells {
                        Ok(ref cs) => (final(state).template_cell_values == *cs && final(self).sheet_error is None),
                        Err(_) => (final(state).template_cell_values@.len() == 0 && final(self).sheet_error is Some),
                    })))
                    &&& final(state).csv_rows == old(state).csv_rows
                    &&& final(state).csv_headers == old(state).csv_headers
                    &&& final(state).cell_mappings == old(state).cell_mappings
                },
            },
    {
        match names {
            Err(e) => {
                self.load_error = Some(e);
            },
            Ok(sheet_names) => {
                let selected: Option<String> = if sheet_names.len() > 0 {
                    Some(sheet_names[0].clone())
                } else {
                    None
                };
                let mut values: Vec<(String, String)> = Vec::new();
                if sheet_names.len() > 0 {
                    match cells {
                        Ok(cs) => {
                            values = cs;
                            self.sheet_error = None;
                        },
                        Err(e) => {
                            self.sheet_error = Some(e);
                        },
                    }
                }
                state.odf_path = Some(path);
                state.odf_sheet_names = sheet_names;
                state.selected_sheet = selected;
                state.template_cell_values = values;
                self.load_error = None;
            },
        }
    }

    /// Applies what re-reading the selected sheet yielded.
    pub fn reload_selected_sheet(
        &mut self,
        state: &mut SharedState,
        cells: Result<Vec<(String, String)>, String>,
    )
        ensures
            match cells {
                Ok(ref cs) => (final(state).template_cell_values == *cs && final(self).sheet_error is None),
                Err(_) => (final(state).template_cell_values == old(state).template_cell_values
                    && final(self).sheet_error is Some),
            },
            final(self).load_error == old(self).load_error,
            final(state).odf_path == old(state).odf_path,
            final(state).odf_sheet_names == old(state).odf_sheet_names,
            final(state).selected_sheet == old(state).selected_sheet,
            final(state).csv_rows == old(state).csv_rows,
            final(state).cell_mappings == old(state).cell_mappings,
    {
        match cells {
            Ok(cs) => {
                state.template_cell_values = cs;
                self.sheet_error = None;
            },
            Err(e) => {
                self.sheet_error = Some(e);
            },
        }
    }

    pub fn reset(&mut self, state: &mut SharedState)
        ensures
            final(self).load_error is None,
            final(self).sheet_error is None,
            final(state).odf_path is None,
            final(state).odf_sheet_names@.len() == 0,
            final(state).selected_sheet is None,
            final(state).template_cell_values@.len() == 0,
    {
        self.load_error = None;
        self.sheet_error = None;
        state.reset_template();
    }
}


pub open spec fn is_ws_char(c: char) -> bool {
    c == ' ' || c == '\t' || c == '\r' || c == '\n'
}

/// Length of the maximal leading whitespace run.
pub open spec fn ws_prefix_len(s: Seq<char>) -> nat
    decreases s.len(),
{
    if s.len() > 0 && is_ws_char(s[0]) {
        (1 + ws_prefix_len(s.drop_first())) as nat
    } else {
        0
    }
}

/// Length of the maximal trailing whitespace run.
pub open spec fn ws_suffix_len(s: Seq<char>) -> nat
    decreases s.len(),
{
    if s.len() > 0 && is_ws_char(s.last()) {
        (1 + ws_suffix_len(s.drop_last())) as nat
    } else {
        0
    }
}

/// The text with leading and trailing whitespace removed.
pub open spec fn trim_chars(s: Seq<char>) -> Seq<char> {
    if ws_prefix_len(s) == s.len() {
        Seq::empty()
    } else {
        s.subrange(ws_prefix_len(s) as int, s.len() - ws_suffix_len(s))
    }
}

/// The ASCII upper-case of one character; others pass through.
pub open spec fn upper_char(c: char) -> char {
    if 97 <= c as u32 <= 122 {
        ((c as u8 - 32) as char)
    } else {
        c
    }
}

pub open spec fn upper_chars(s: Seq<char>) -> Seq<char> {
    s.map_values(|c: char| upper_char(c))
}

proof fn lemma_ws_prefix_len_char(s: Seq<char>, k: nat)
    requires
        k <= s.len(),
        forall|j: int| 0 <= j < k ==> is_ws_char(s[j]),
        k < s.len() ==> !is_ws_char(s[k as int]),
    ensures
        ws_prefix_len(s) == k,
    decreases k,
{
    if k == 0 {
    } else {
        lemma_ws_prefix_len_char(s.drop_first(), (k - 1) as nat);
    }
}

proof fn lemma_ws_suffix_len_char(s: Seq<char>, k: nat)
    requires
        k <= s.len(),
        forall|j: int| s.len() - k <= j < s.len() ==> is_ws_char(s[j]),
        k < s.len() ==> !is_ws_char(s[s.len() - k - 1]),
    ensures
        ws_suffix_len(s) == k,
    decreases k,
{
    if k == 0 {
    } else {
        assert(is_ws_char(s.last()));
        lemma_ws_suffix_len_char(s.drop_last(), (k - 1) as nat);
    }
}

/// Trims whitespace from both ends and upper-cases ASCII letters.
pub fn trim_upper(s: &str) -> (r: String)
    ensures
        r@ == upper_chars(trim_chars(s@)),
{
    let n = s.unicode_len();
    let mut p: usize = 0;
    loop
        invariant
            p <= n,
            n == s@.len(),
            forall|j: int| 0 <= j < p ==> is_ws_char(s@[j]),
        ensures
            p <= n,
            n == s@.len(),
            forall|j: int| 0 <= j < p ==> is_ws_char(s@[j]),
            p == n || !is_ws_char(s@[p as int]),
        decreases n - p,
    {
        if p == n {
            break ;
        }
        let c = s.get_char(p);
        if !(c == ' ' || c == '\t' || c == '\r' || c == '\n') {
            break ;
        }
        p += 1;
    }
    proof {
        lemma_ws_prefix_len_char(s@, p as nat);
    }
    if p == n {
        proof {
            assert(trim_chars(s@) =~= Seq::<char>::empty());
            assert(upper_chars(trim_chars(s@)) =~= Seq::<char>::empty());
        }
        return String::new();
    }
    let mut q: usize = 0;
    loop
        invariant
            q <= n - p,
            p < n,
            n == s@.len(),
            forall|j: int| n - q <= j < n ==> is_ws_char(s@[j]),
        ensures
            q <= n - p,
            p < n,
            n == s@.len(),
            forall|j: int| n - q <= j < n ==> is_ws_char(s@[j]),
            q == n - p || !is_ws_char(s@[n - q - 1]),
        decreases n - p - q,
    {
        if q == n - p {
            break ;
        }
        let c = s.get_char(n - 1 - q);
        if !(c == ' ' || c == '\t' || c == '\r' || c == '\n') {
            break ;
        }
        q += 1;
    }
    proof {
        assert(!is_ws_char(s@[p as int]));
        assert(q < n - p) by {
            if q == n - p {
                assert(is_ws_char(s@[p as int]));
            }
        }
        assert(!is_ws_char(s@[n - q - 1]));
        lemma_ws_suffix_len_char(s@, q as nat);
    }
    let ghost tc = trim_chars(s@);
    let mut out = String::new();
    let mut i: usize = p;
    while i < n - q
        invariant
            p <= i <= n - q,
            q < n - p,
            p < n,
            n == s@.len(),
            ws_prefix_len(s@) == p,
            ws_suffix_len(s@) == q,
            tc == trim_chars(s@),
            out@ == upper_chars(tc).take(i - p as int),
        decreases n - q - i,
    {
        let c = s.get_char(i);
        let cv = c as u32;
        let u: char = if 97 <= cv && cv <= 122 {
            ((cv - 32) as u8) as char
        } else {
            c
        };
        assert(u == upper_char(s@[i as int]));
        crate::xml::push_char(&mut out, u);
        proof {
            assert(tc[i - p as int] == s@[i as int]);
            assert(upper_chars(tc).take(i + 1 - p as int) =~= upper_chars(tc).take(i - p as int)
                + seq![upper_char(tc[i - p as int])]);
        }
        i += 1;
    }
    proof {
        assert(upper_chars(tc).take(n - q - p as int) =~= upper_chars(tc));
    }
    out
}

/// One sample sheet offered by the template-selection step.
pub struct SampleSheet {
    pub name: String,
    pub cells: Vec<CellPreview>,
}

/// The first sample sheet carrying a name, if any.
pub open spec fn find_sheet(sheets: Seq<SampleSheet>, name: Seq<char>) -> Option<int>
    decreases sheets.len(),
{
    if sheets.len() == 0 {
        None
    } else if sheets[0].name@ == name {
        Some(0)
    } else {
        match find_sheet(sheets.drop_first(), name) {
            Some(i) => Some(i + 1),
            None => None,
        }
    }
}

proof fn lemma_find_sheet_bounds(sheets: Seq<SampleSheet>, name: Seq<char>)
    ensures
        match find_sheet(sheets, name) {
            Some(i) => 0 <= i < sheets.len() && sheets[i].name@ == name,
            None => true,
        },
    decreases sheets.len(),
{
    if sheets.len() > 0 && sheets[0].name@ != name {
        lemma_find_sheet_bounds(sheets.drop_first(), name);
    }
}

/// Whether some template cell's upper-cased address equals the text.
pub open spec fn has_cell_address(cells: Seq<CellPreview>, addr: Seq<char>) -> bool {
    exists|i: int| 0 <= i < cells.len() && upper_chars((#[trigger] cells[i]).address@) == addr
}

/// The first mapping whose destination equals the text, if any.
pub open spec fn find_mapping(ms: Seq<ColumnMapping>, addr: Seq<char>) -> Option<int>
    decreases ms.len(),
{
    if ms.len() == 0 {
        None
    } else if ms[0].cell_address@ == addr {
        Some(0)
    } else {
        match find_mapping(ms.drop_first(), addr) {
            Some(i) => Some(i + 1),
            None => None,
        }
    }
}

/// The template-selection step: offers sample sheets, records the chosen
/// one, and edits the column-to-cell mapping list.
pub struct OdfTemplateModule {
    pub selected_file: Option<String>,
    pub available_sheets: Vec<SampleSheet>,
    pub pending_cell: String,
    pub pending_column: Option<usize>,
    pub status_message: Option<String>,
}

impl OdfTemplateModule {
    pub fn new() -> (r: OdfTemplateModule)
        ensures
            r.selected_file is None,
            r.available_sheets@.len() == 0,
            r.pending_cell@.len() == 0,
            r.pending_column is None,
            r.status_message is None,
    {
        OdfTemplateModule {
            selected_file: None,
            available_sheets: Vec::new(),
            pending_cell: String::new(),
            pending_column: None,
            status_message: None,
        }
    }

    pub fn get_title(&self) -> (r: String)
        ensures
            r@ == "Select Template Worksheet"@,
    {
        "Select Template Worksheet".to_owned()
    }

    /// Resets the shared template choice and offers the two example sheets.
    pub fn load_sample_template(&mut self, state: &mut WorkflowState)
        ensures
            final(state).template_sheet_name is None,
            final(state).template_cells@.len() == 0,
            final(state).column_mappings@.len() == 0,
            final(state).csv_preview == old(state).csv_preview,
            final(self).available_sheets@.len() == 2,
            final(self).available_sheets@[0].name@ == "Template"@,
            final(self).available_sheets@[0].cells@.len() == 4,
            final(self).available_sheets@[0].cells@[0].address@ == "A1"@,
            final(self).available_sheets@[0].cells@[0].value@ == "Project Name"@,
            final(self).available_sheets@[0].cells@[1].address@ == "B1"@,
            final(self).available_sheets@[0].cells@[1].value@ == "Owner"@,
            final(self).available_sheets@[0].cells@[2].address@ == "A2"@,
            final(self).available_sheets@[0].cells@[2].value@ == "Description"@,
            final(self).available_sheets@[0].cells@[3].address@ == "B2"@,
            final(self).available_sheets@[0].cells@[3].value@ == "Pending"@,
            final(self).available_sheets@[1].name@ == "Metadata"@,
            final(self).available_sheets@[1].cells@.len() == 3,
            final(self).available_sheets@[1].cells@[0].address@ == "A1"@,
            final(self).available_sheets@[1].cells@[0].value@ == "Created"@,
            final(self).available_sheets@[1].cells@[1].address@ == "B1"@,
            final(self).available_sheets@[1].cells@[1].value@ == "Author"@,
            final(self).available_sheets@[1].cells@[2].address@ == "A2"@,
            final(self).available_sheets@[1].cells@[2].value@ == "Tags"@,
            match final(self).status_message {
                Some(m) => m@ == "Loaded example sheets. Choose the template sheet below."@,
                None => false,
            },
    {
        state.template_sheet_name = None;
        state.template_cells.clear();
        state.column_mappings.clear();
        let mut cells_a: Vec<CellPreview> = Vec::new();
        cells_a.push(
            CellPreview { address: "A1".to_owned(), value: "Project Name".to_owned() },
        );
        cells_a.push(CellPreview { address: "B1".to_owned(), value: "Owner".to_owned() });
        cells_a.push(
            CellPreview { address: "A2".to_owned(), value: "Description".to_owned() },
        );
        cells_a.push(CellPreview { address: "B2".to_owned(), value: "Pending".to_owned() });
        let mut cells_b: Vec<CellPreview> = Vec::new();
        cells_b.push(CellPreview { address: "A1".to_owned(), value: "Created".to_owned() });
        cells_b.push(CellPreview { address: "B1".to_owned(), value: "Author".to_owned() });
        cells_b.push(CellPreview { address: "A2".to_owned(), value: "Tags".to_owned() });
        let mut sheets: Vec<SampleSheet> = Vec::new();
        sheets.push(SampleSheet { name: "Template".to_owned(), cells: cells_a });
        sheets.push(SampleSheet { name: "Metadata".to_owned(), cells: cells_b });
        self.available_sheets = sheets;
        self.status_message = Some(
            "Loaded example sheets. Choose the template sheet below.".to_owned(),
        );
    }

    /// The previewed cells of the currently selected sheet, if any.
    pub fn current_sheet_cells(&self, state: &WorkflowState) -> (r: Vec<CellPreview>)
        ensures
            match state.template_sheet_name {
                Some(nm) => match find_sheet(self.available_sheets@, nm@) {
                    Some(i) => cells_match(r@, self.available_sheets@[i].cells@),
                    None => r@.len() == 0,
                },
                None => r@.len() == 0,
            },
    {
        match &state.template_sheet_name {
            None => Vec::new(),
            Some(nm) => {
                let ghost sheets = self.available_sheets@;
                proof {
                    assert(sheets.skip(0) =~= sheets);
                    lemma_find_sheet_bounds(sheets, nm@);
                }
                let n = self.available_sheets.len();
                let mut k: usize = 0;
                while k < n
                    invariant
                        k <= n,
                        n == sheets.len(),
                        sheets == self.available_sheets@,
                        state.template_sheet_name == Some(*nm),
                        match find_sheet(sheets, nm@) {
                            Some(i) => i >= k && find_sheet(sheets.skip(k as int), nm@) == Some(
                                i - k,
                            ),
                            None => find_sheet(sheets.skip(k as int), nm@) is None,
                        },
                    decreases n - k,
                {
                    proof {
                        lemma_find_sheet_bounds(sheets, nm@);
                        assert(sheets.skip(k as int)[0] == sheets[k as int]);
                        assert(sheets.skip(k as int).drop_first() =~= sheets.skip(k + 1));
                    }
                    if crate::xml::bytes_eq(
                        self.available_sheets[k].name.as_str().as_bytes(),
                        nm.as_str().as_bytes(),
                    ) {
                        proof {
                            if self.available_sheets@[k as int].name@ != nm@ {
                                vstd::utf8::encode_utf8_decode_utf8(
                                    self.available_sheets@[k as int].name@,
                                );
                                vstd::utf8::encode_utf8_decode_utf8(nm@);
                            }
                            assert(find_sheet(sheets, nm@) == Some(k as int));
                        }
                        let out = clone_cells(&self.available_sheets[k].cells);
                        proof {
                            assert(state.template_sheet_name == Some(*nm));
                            assert(cells_match(out@, self.available_sheets@[k as int].cells@));
                            assert(match state.template_sheet_name {
                                Some(nm2) => match find_sheet(self.available_sheets@, nm2@) {
                                    Some(i) => cells_match(
                                        out@,
                                        self.available_sheets@[i].cells@,
                                    ),
                                    None => out@.len() == 0,
                                },
                                None => out@.len() == 0,
                            });
                        }
                        return out;
                    }
                    proof {
                        assert(self.available_sheets@[k as int].name@ != nm@);
                    }
                    k += 1;
                }
                proof {
                    assert(sheets.skip(n as int) =~= Seq::<SampleSheet>::empty());
                }
                Vec::new()
            },
        }
    }

    /// Records the chosen sheet: its cells become the template preview and
    /// the mapping list starts over.
    pub fn apply_sheet_selection(&mut self, state: &mut WorkflowState, sheet_name: String)
        ensures
            (final(state).template_sheet_name matches Some(nm) && nm@ == sheet_name@),
            match find_sheet(old(self).available_sheets@, sheet_name@) {
                Some(i) => cells_match(
                    final(state).template_cells@,
                    old(self).available_sheets@[i].cells@,
                ),
                None => final(state).template_cells@.len() == 0,
            },
            final(state).column_mappings@.len() == 0,
            final(self).available_sheets == old(self).available_sheets,
            match final(self).status_message {
                Some(m) => m@ == "Template sheet selected. Set up your column mappings."@,
                None => false,
            },
    {
        let ghost sheets = self.available_sheets@;
        proof {
            assert(sheets.skip(0) =~= sheets);
            lemma_find_sheet_bounds(sheets, sheet_name@);
        }
        let n = self.available_sheets.len();
        let mut cells: Vec<CellPreview> = Vec::new();
        let mut found = false;
        let mut k: usize = 0;
        while k < n && !found
            invariant
                k <= n,
                n == sheets.len(),
                sheets == self.available_sheets@,
                !found ==> (match find_sheet(sheets, sheet_name@) {
                    Some(i) => i >= k && find_sheet(sheets.skip(k as int), sheet_name@) == Some(
                        i - k,
                    ),
                    None => find_sheet(sheets.skip(k as int), sheet_name@) is None,
                }) && cells@.len() == 0,
                found ==> (match find_sheet(sheets, sheet_name@) {
                    Some(i) => cells_match(cells@, sheets[i].cells@),
                    None => false,
                }),
            ensures
                k >= n || found,
                found ==> (match find_sheet(sheets, sheet_name@) {
                    Some(i) => cells_match(cells@, sheets[i].cells@),
                    None => false,
                }),
                !found ==> (match find_sheet(sheets, sheet_name@) {
                    Some(i) => i >= k,
                    None => true,
                }) && cells@.len() == 0,
            decreases n - k,
        {
            proof {
                lemma_find_sheet_bounds(sheets, sheet_name@);
                assert(sheets.skip(k as int)[0] == sheets[k as int]);
                assert(sheets.skip(k as int).drop_first() =~= sheets.skip(k + 1));
            }
            if crate::xml::bytes_eq(
                self.available_sheets[k].name.as_str().as_bytes(),
                sheet_name.as_str().as_bytes(),
            ) {
                proof {
                    if self.available_sheets@[k as int].name@ != sheet_name@ {
                        vstd::utf8::encode_utf8_decode_utf8(
                            self.available_sheets@[k as int].name@,
                        );
                        vstd::utf8::encode_utf8_decode_utf8(sheet_name@);
                    }
                    assert(find_sheet(sheets, sheet_name@) == Some(k as int));
                }
                cells = clone_cells(&self.available_sheets[k].cells);
                found = true;
                break ;
            }
            proof {
                assert(self.available_sheets@[k as int].name@ != sheet_name@);
            }
            k += 1;
        }
        proof {
            if !found {
                assert(sheets.skip(n as int) =~= Seq::<SampleSheet>::empty());
                assert(find_sheet(sheets, sheet_name@) is None);
            }
        }
        state.template_sheet_name = Some(sheet_name);
        state.template_cells = cells;
        state.column_mappings.clear();
        self.status_message = Some(
            "Template sheet selected. Set up your column mappings.".to_owned(),
        );
    }

    /// Adds or updates the mapping for the entered cell address, reporting
    /// the outcome as a status message.  The address is trimmed and
    /// upper-cased; it must name a previewed template cell, and a column
    /// must be chosen first.
    pub fn add_mapping(&mut self, state: &mut WorkflowState)
        ensures
            final(self).available_sheets == old(self).available_sheets,
            final(self).selected_file == old(self).selected_file,
            ({
                let addr = upper_chars(trim_chars(old(self).pending_cell@));
                if old(state).csv_preview is None {
                    &&& status_is(final(self).status_message, "Import a CSV file first."@)
                    &&& *final(state) == *old(state)
                    &&& final(self).pending_cell == old(self).pending_cell
                } else if old(self).pending_column is None {
                    &&& status_is(final(self).status_message, "Select a CSV column to map."@)
                    &&& *final(state) == *old(state)
                    &&& final(self).pending_cell == old(self).pending_cell
                } else if addr.len() == 0 {
                    &&& status_is(final(self).status_message, "Enter a cell address (e.g. A1)."@)
                    &&& *final(state) == *old(state)
                    &&& final(self).pending_cell == old(self).pending_cell
                } else if !has_cell_address(old(state).template_cells@, addr) {
                    &&& status_is(
                        final(self).status_message,
                        "Cell not present in the template preview."@,
                    )
                    &&& *final(state) == *old(state)
                    &&& final(self).pending_cell == old(self).pending_cell
                } else if (match old(self).pending_column {
                    Some(ci) => ci >= (match old(state).csv_preview {
                        Some(ref p) => p.headers@.len(),
                        None => 0,
                    }),
                    None => true,
                }) {
                    &&& status_is(final(self).status_message, "Select a CSV column to map."@)
                    &&& *final(state) == *old(state)
                    &&& final(self).pending_cell == old(self).pending_cell
                } else {
                    let ci = old(self).pending_column->Some_0;
                    let hdr = (match old(state).csv_preview {
                        Some(ref p) => p.headers@[ci as int]@,
                        None => Seq::<char>::empty(),
                    });
                    &&& final(self).pending_cell@.len() == 0
                    &&& (match find_mapping(old(state).column_mappings@, addr) {
                        Some(i) => {
                            &&& status_is(
                                final(self).status_message,
                                "Updated existing mapping."@,
                            )
                            &&& final(state).column_mappings@.len() == old(
                                state,
                            ).column_mappings@.len()
                            &&& (#[trigger] final(state).column_mappings@[i]).column_index == ci
                            &&& final(state).column_mappings@[i].column_label@ == hdr
                            &&& final(state).column_mappings@[i].cell_address == old(
                                state,
                            ).column_mappings@[i].cell_address
                            &&& (forall|j: int|
                                0 <= j < final(state).column_mappings@.len() && j != i
                                    ==> #[trigger] final(state).column_mappings@[j] == old(
                                    state,
                                ).column_mappings@[j])
                        },
                        None => {
                            &&& status_is(final(self).status_message, "Added mapping."@)
                            &&& final(state).column_mappings@.len() == old(
                                state,
                            ).column_mappings@.len() + 1
                            &&& (forall|j: int|
                                0 <= j < old(state).column_mappings@.len()
                                    ==> #[trigger] final(state).column_mappings@[j] == old(
                                    state,
                                ).column_mappings@[j])
                            &&& final(state).column_mappings@.last().column_index == ci
                            &&& final(state).column_mappings@.last().column_label@ == hdr
                            &&& final(state).column_mappings@.last().cell_address@ == addr
                        },
                    })
                    &&& final(state).csv_preview == old(state).csv_preview
                    &&& final(state).template_cells == old(state).template_cells
                    &&& final(state).template_sheet_name == old(state).template_sheet_name
                }
            }),
    {
        if state.csv_preview.is_none() {
            self.status_message = Some("Import a CSV file first.".to_owned());
            return ;
        }
        let column_index = match self.pending_column {
            Some(ci) => ci,
            None => {
                self.status_message = Some("Select a CSV column to map.".to_owned());
                return ;
            },
        };
        let cell_address = trim_upper(self.pending_cell.as_str());
        if cell_address.as_str().is_empty() {
            self.status_message = Some("Enter a cell address (e.g. A1).".to_owned());
            return ;
        }
        let ghost addr = cell_address@;
        let ghost cellsv = state.template_cells@;
        let mut present = false;
        let nc = state.template_cells.len();
        let mut k: usize = 0;
        while k < nc
            invariant
                k <= nc,
                nc == cellsv.len(),
                cellsv == state.template_cells@,
                addr == cell_address@,
                !present ==> forall|j: int|
                    0 <= j < k ==> upper_chars((#[trigger] cellsv[j]).address@) != addr,
                present ==> has_cell_address(cellsv, addr),
            ensures
                present == has_cell_address(cellsv, addr),
                cellsv == state.template_cells@,
            decreases nc - k,
        {
            let up = upper_str(state.template_cells[k].address.as_str());
            if crate::xml::str_eq(up.as_str(), cell_address.as_str()) {
                present = true;
                proof {
                    assert(upper_chars(cellsv[k as int].address@) == addr);
                    assert(has_cell_address(cellsv, addr));
                }
                break ;
            }
            k += 1;
        }
        if !present {
            self.status_message = Some("Cell not present in the template preview.".to_owned());
            return ;
        }
        let header_count = match &state.csv_preview {
            Some(p) => p.headers.len(),
            None => 0,
        };
        if column_index >= header_count {
            self.status_message = Some("Select a CSV column to map.".to_owned());
            return ;
        }
        let label: String = match &state.csv_preview {
            Some(p) => p.headers[column_index].clone(),
            None => String::new(),
        };
        let ghost msv = state.column_mappings@;
        proof {
            assert(msv.skip(0) =~= msv);
            lemma_find_mapping_bounds(msv, addr);
        }
        let nm = state.column_mappings.len();
        let mut found_at: Option<usize> = None;
        let mut t: usize = 0;
        while t < nm && found_at.is_none()
            invariant
                t <= nm,
                nm == msv.len(),
                msv == state.column_mappings@,
                addr == cell_address@,
                found_at is None ==> (match find_mapping(msv, addr) {
                    Some(i) => i >= t && find_mapping(msv.skip(t as int), addr) == Some(i - t),
                    None => find_mapping(msv.skip(t as int), addr) is None,
                }),
                found_at matches Some(f) ==> find_mapping(msv, addr) == Some(f as int) && f < nm,
            ensures
                msv == state.column_mappings@,
                match found_at {
                    Some(f) => find_mapping(msv, addr) == Some(f as int) && f < nm,
                    None => find_mapping(msv, addr) is None,
                },
            decreases nm - t,
        {
            proof {
                lemma_find_mapping_bounds(msv, addr);
                assert(msv.skip(t as int)[0] == msv[t as int]);
                assert(msv.skip(t as int).drop_first() =~= msv.skip(t + 1));
            }
            if crate::xml::str_eq(
                state.column_mappings[t].cell_address.as_str(),
                cell_address.as_str(),
            ) {
                proof {
                    assert(find_mapping(msv, addr) == Some(t as int));
                }
                found_at = Some(t);
                break ;
            }
            proof {
                assert(msv[t as int].cell_address@ != addr);
            }
            t += 1;
        }
        proof {
            if t >= nm && (found_at is None) {
                assert(msv.skip(nm as int) =~= Seq::<ColumnMapping>::empty());
            }
        }
        match found_at {
            Some(f) => {
                let kept = state.column_mappings[f].cell_address.clone();
                state.column_mappings.set(
                    f,
                    ColumnMapping {
                        column_index,
                        column_label: label,
                        cell_address: kept,
                    },
                );
                self.status_message = Some("Updated existing mapping.".to_owned());
            },
            None => {
                state.column_mappings.push(
                    ColumnMapping { column_index, column_label: label, cell_address: cell_address },
                );
                self.status_message = Some("Added mapping.".to_owned());
            },
        }
        self.pending_cell = String::new();
    }
}

/// Whether a status holds exactly the given message.
pub open spec fn status_is(st: Option<String>, msg: Seq<char>) -> bool {
    match st {
        Some(m) => m@ == msg,
        None => false,
    }
}

proof fn lemma_find_mapping_bounds(ms: Seq<ColumnMapping>, addr: Seq<char>)
    ensures
        match find_mapping(ms, addr) {
            Some(i) => 0 <= i < ms.len() && ms[i].cell_address@ == addr,
            None => true,
        },
    decreases ms.len(),
{
    if ms.len() > 0 && ms[0].cell_address@ != addr {
        lemma_find_mapping_bounds(ms.drop_first(), addr);
    }
}

/// Upper-cases the ASCII letters of a text.
pub fn upper_str(s: &str) -> (r: String)
    ensures
        r@ == upper_chars(s@),
{
    let n = s.unicode_len();
    let mut out = String::new();
    let mut i: usize = 0;
    while i < n
        invariant
            i <= n,
            n == s@.len(),
            out@ == upper_chars(s@).take(i as int),
        decreases n - i,
    {
        let c = s.get_char(i);
        let cv = c as u32;
        let u: char = if 97 <= cv && cv <= 122 {
            ((cv - 32) as u8) as char
        } else {
            c
        };
        assert(u == upper_char(s@[i as int]));
        crate::xml::push_char(&mut out, u);
        proof {
            assert(upper_chars(s@).take(i + 1) =~= upper_chars(s@).take(i as int) + seq![
                upper_char(s@[i as int]),
            ]);
        }
        i += 1;
    }
    proof {
        assert(upper_chars(s@).take(n as int) =~= upper_chars(s@));
    }
    out
}


/// The workbook-generation step built on the template-preserving pipeline:
/// validates the shared state and drives one generation run.
pub struct BulkCreateModule {
    pub state: SharedState,
    pub save_path: Option<String>,
    pub status_message: Option<String>,
    pub error_message: Option<String>,
}

/// Whether every mapping's destination text is blank.
pub open spec fn all_mappings_blank(ms: Seq<crate::state::CellMapping>) -> bool {
    forall|i: int| 0 <= i < ms.len() ==> blank_text((#[trigger] ms[i]).cell_ref@)
}

impl BulkCreateModule {
    pub fn new(state: SharedState) -> (r: BulkCreateModule)
        ensures
            r.state == state,
            r.save_path is None,
            r.status_message is None,
            r.error_message is None,
    {
        BulkCreateModule { state, save_path: None, status_message: None, error_message: None }
    }

    pub fn get_title(&self) -> (r: String)
        ensures
            r@ == "Generate Workbook"@,
    {
        "Generate Workbook".to_owned()
    }

    /// Says what still blocks a generation run, if anything.
    pub fn validate_inputs(&self) -> (r: Result<(), String>)
        ensures
            match r {
                Ok(_) => self.state.csv_rows@.len() > 0 && self.state.odf_path is Some
                    && self.state.selected_sheet is Some && !all_mappings_blank(
                    self.state.cell_mappings@,
                ),
                Err(e) => if self.state.csv_rows@.len() == 0 {
                    e@ == "Import a CSV file before generating sheets."@
                } else if self.state.odf_path is None || self.state.selected_sheet is None {
                    e@ == "Select a template workbook and sheet."@
                } else {
                    e@ == "Assign at least one CSV column to a template cell."@
                        && all_mappings_blank(self.state.cell_mappings@)
                },
            },
    {
        if self.state.csv_rows.len() == 0 {
            return Err("Import a CSV file before generating sheets.".to_owned());
        }
        if self.state.odf_path.is_none() || self.state.selected_sheet.is_none() {
            return Err("Select a template workbook and sheet.".to_owned());
        }
        let n = self.state.cell_mappings.len();
        let mut k: usize = 0;
        while k < n
            invariant
                k <= n,
                n == self.state.cell_mappings@.len(),
                self.state.csv_rows@.len() > 0,
                self.state.odf_path is Some,
                self.state.selected_sheet is Some,
                forall|j: int|
                    0 <= j < k ==> blank_text((#[trigger] self.state.cell_mappings@[j]).cell_ref@),
            decreases n - k,
        {
            if !is_blank(self.state.cell_mappings[k].cell_ref.as_str()) {
                assert(!all_mappings_blank(self.state.cell_mappings@));
                return Ok(());
            }
            k += 1;
        }
        Err("Assign at least one CSV column to a template cell.".to_owned())
    }

    /// One generation run against the loaded template bytes: the shared
    /// state supplies the sheet name, the mapping list and the rows.  The
    /// row-count bound keeps every allocated sheet id inside `u32`.
    pub fn build_workbook(&self, template_bytes: &[u8]) -> (r: Result<(Vec<u8>, usize), GenError>)
        requires
            self.state.csv_rows@.len() < 0x8000_0000,
        ensures
            self.state.selected_sheet is None ==> r == Err::<(Vec<u8>, usize), GenError>(
                GenError::SheetNotFound,
            ),
            match self.state.selected_sheet {
                Some(nm) => {
                    &&& (self.state.csv_rows@.len() == 0) == (r == Err::<
                        (Vec<u8>, usize),
                        GenError,
                    >(GenError::InputEmpty))
                    &&& (self.state.csv_rows@.len() > 0 && !crate::assemble::has_usable_mapping(
                        crate::assemble::mapping_views(self.state.cell_mappings@),
                    )) == (r == Err::<(Vec<u8>, usize), GenError>(GenError::NoMappings))
                    &&& (match r {
                        Ok(out) => out.1 == self.state.csv_rows@.len()
                            && crate::assemble::run_ok(
                            template_bytes@,
                            nm@,
                            crate::assemble::mapping_views(self.state.cell_mappings@),
                            self.state.csv_rows@,
                            out.0@,
                        ),
                        Err(_) => true,
                    })
                    &&& ((self.state.csv_rows@.len() > 0 && crate::assemble::has_usable_mapping(
                        crate::assemble::mapping_views(self.state.cell_mappings@),
                    )) ==> crate::assemble::pipeline_outcome_ok(
                        template_bytes@,
                        nm@,
                        crate::assemble::mapping_views(self.state.cell_mappings@),
                        self.state.csv_rows@,
                        r,
                    ))
                },
                None => true,
            },
    {
        match &self.state.selected_sheet {
            None => Err(GenError::SheetNotFound),
            Some(nm) => crate::assemble::generate_workbook(
                template_bytes,
                nm.as_str(),
                &self.state.cell_mappings,
                &self.state.csv_rows,
            ),
        }
    }

    /// Records the outcome of one run: the saved path and a message on
    /// success, the error text on failure.
    pub fn record_outcome(&mut self, path: String, outcome: Result<usize, String>)
        ensures
            match outcome {
                Ok(count) => {
                    &&& (match final(self).status_message {
                        Some(m) => m@ == "Created "@ + dec_digits(count as nat)
                            + " sheet(s) using the template."@,
                        None => false,
                    })
                    &&& final(self).error_message is None
                    &&& (match final(self).save_path {
                        Some(p) => p@ == path@,
                        None => false,
                    })
                    &&& (match final(self).state.last_output_path {
                        Some(p) => p@ == path@,
                        None => false,
                    })
                },
                Err(ref e) => (final(self).error_message matches Some(m) && m@ == e@ && final(self).save_path == old(self).save_path && final(self).status_message == old(self).status_message),
            },
    {
        match outcome {
            Ok(count) => {
                let mut msg = "Created ".to_owned();
                let d = dec_string(count as u64);
                msg.append(d.as_str());
                msg.append(" sheet(s) using the template.");
                self.status_message = Some(msg);
                self.error_message = None;
                self.save_path = Some(path.clone());
                self.state.last_output_path = Some(path);
            },
            Err(e) => {
                self.error_message = Some(e);
            },
        }
    }

    pub fn is_complete(&self) -> (r: bool)
        ensures
            r == (self.state.last_output_path is Some),
    {
        self.state.last_output_path.is_some()
    }

    pub fn reset(&mut self)
        ensures
            final(self).save_path is None,
            final(self).status_message is None,
            final(self).error_message is None,
            final(self).state.last_output_path is None,
    {
        self.save_path = None;
        self.status_message = None;
        self.error_message = None;
        self.state.last_output_path = None;
    }
}

/// The flat-package generation step: synthesizes a fresh single-document
/// package from the previewed template cells and the mapping list.
pub struct BulkCreationModule {
    pub output_path: String,
    pub status_message: Option<String>,
}

impl BulkCreationModule {
    pub fn new() -> (r: BulkCreationModule)
        ensures
            r.output_path@.len() == 0,
            r.status_message is None,
    {
        BulkCreationModule { output_path: String::new(), status_message: None }
    }

    pub fn get_title(&self) -> (r: String)
        ensures
            r@ == "Create bulk worksheets"@,
    {
        "Create bulk worksheets".to_owned()
    }

    /// Builds the flat package for the current workflow state: one sheet
    /// per sample row (or a single base sheet), named after the template
    /// sheet, rendered as archive bytes for the caller to persist.
    pub fn save_bulk_document(&mut self, state: &mut WorkflowState) -> (r: Result<
        (GenerationSummary, Vec<u8>),
        String,
    >)
        ensures
            *final(state) == *old(state),
            final(self).output_path == old(self).output_path,
            match r {
                Ok(p) => {
                    let tname = (match old(state).template_sheet_name {
                        Some(ref nm) => nm@,
                        None => "Template"@,
                    });
                    let sample = (match old(state).csv_preview {
                        Some(ref cp) => cp.sample_rows@,
                        None => Seq::<Vec<String>>::empty(),
                    });
                    &&& old(state).csv_preview is Some
                    &&& old(state).template_cells@.len() > 0
                    &&& old(state).column_mappings@.len() > 0
                    &&& p.0.sheet_count as int == (if sample.len() == 0 {
                        1int
                    } else {
                        sample.len() as int
                    })
                    &&& p.0.output_path@ == old(self).output_path@
                    &&& exists|names: Seq<String>, data: Seq<Vec<Vec<String>>>|
                        {
                            &&& #[trigger] names.len() == p.0.sheet_count
                            &&& #[trigger] data.len() == p.0.sheet_count
                            &&& (forall|i: int|
                                0 <= i < names.len() ==> (#[trigger] names[i])@ == tname + " "@
                                    + dec_digits((i + 1) as nat))
                            &&& crate::flat::sheet_grids_ok(
                                data,
                                old(state).template_cells@,
                                old(state).column_mappings@,
                                sample,
                            )
                            &&& crate::container::archive_parts_of(p.1@) == Some(
                                crate::flat::flat_parts_spec(
                                    crate::flat::flat_content_spec(names, data),
                                    crate::flat::flat_manifest_spec(),
                                ),
                            )
                            &&& crate::container::archive_write_ok(
                                crate::flat::flat_parts_full_spec(
                                    crate::flat::flat_content_spec(names, data),
                                    crate::flat::flat_manifest_spec(),
                                ),
                            )
                        }
                },
                Err(e) => {
                    let tname = (match old(state).template_sheet_name {
                        Some(ref nm) => nm@,
                        None => "Template"@,
                    });
                    let sample = (match old(state).csv_preview {
                        Some(ref cp) => cp.sample_rows@,
                        None => Seq::<Vec<String>>::empty(),
                    });
                    if old(state).csv_preview is None {
                        e@ == "Import CSV data before generating worksheets."@
                    } else if old(state).template_cells@.len() == 0 {
                        e@ == "No template cells available."@
                    } else if old(state).column_mappings@.len() == 0 {
                        e@ == "No column mappings defined."@
                    } else {
                        &&& e@ == "Unable to finalise archive."@
                        &&& exists|names: Seq<String>, data: Seq<Vec<Vec<String>>>|
                            {
                                &&& #[trigger] names.len() as int == (if sample.len() == 0 {
                                    1int
                                } else {
                                    sample.len() as int
                                })
                                &&& #[trigger] data.len() == names.len()
                                &&& (forall|i: int|
                                    0 <= i < names.len() ==> (#[trigger] names[i])@ == tname + " "@
                                        + dec_digits((i + 1) as nat))
                                &&& crate::flat::sheet_grids_ok(
                                    data,
                                    old(state).template_cells@,
                                    old(state).column_mappings@,
                                    sample,
                                )
                                &&& !crate::container::archive_write_ok(
                                    crate::flat::flat_parts_full_spec(
                                        crate::flat::flat_content_spec(names, data),
                                        crate::flat::flat_manifest_spec(),
                                    ),
                                )
                            }
                    }
                },
            },
    {
        let sample_rows: Vec<Vec<String>> = match &state.csv_preview {
            Some(cp) => cp.sample_rows.clone(),
            None => {
                return Err("Import CSV data before generating worksheets.".to_owned());
            },
        };
        let template_name: String = match &state.template_sheet_name {
            Some(nm) => nm.clone(),
            None => "Template".to_owned(),
        };
        if state.template_cells.len() == 0 {
            return Err("No template cells available.".to_owned());
        }
        if state.column_mappings.len() == 0 {
            return Err("No column mappings defined.".to_owned());
        }
        let sheet_data = crate::flat::build_sheet_data(
            &state.template_cells,
            &state.column_mappings,
            &sample_rows,
        );
        let count = sheet_data.len();
        let ghost tname = (match state.template_sheet_name {
            Some(ref nm) => nm@,
            None => "Template"@,
        });
        let mut sheet_names: Vec<String> = Vec::new();
        let mut i: usize = 0;
        while i < count
            invariant
                i <= count,
                sheet_names@.len() == i,
                template_name@ == tname,
                forall|a: int|
                    0 <= a < i ==> (#[trigger] sheet_names@[a])@ == tname + " "@ + dec_digits(
                        (a + 1) as nat,
                    ),
            decreases count - i,
        {
            let mut nm = template_name.clone();
            nm.append(" ");
            let d = dec_string((i + 1) as u64);
            nm.append(d.as_str());
            sheet_names.push(nm);
            i += 1;
        }
        let content_xml = crate::flat::build_content_xml(&sheet_names, &sheet_data);
        let manifest_xml = crate::flat::build_manifest_xml();
        let parts = crate::flat::flat_package_parts(content_xml.as_str(), manifest_xml.as_str());
        proof {
            assert forall|j: int|
                0 <= j < crate::container::parts_view(parts@).len() implies crate::container::part_name_ok(
                #[trigger] crate::container::parts_view(parts@)[j].0,
            ) by {
                assert(crate::container::parts_view(parts@)[j].0 == parts@[j].name@);
                reveal_strlit("mimetype");
                reveal_strlit("META-INF/manifest.xml");
                reveal_strlit("content.xml");
            };
            assert forall|j: int|
                0 <= j < parts@.len() implies crate::container::part_name_ok(
                #[trigger] parts@[j].name@,
            ) by {
                assert(crate::container::parts_view(parts@)[j].0 == parts@[j].name@);
            };
        }
        let bytes = match crate::container::write_archive(&parts) {
            Ok(b) => b,
            Err(_) => {
                return Err("Unable to finalise archive.".to_owned());
            },
        };
        let summary = GenerationSummary {
            sheet_count: count,
            output_path: self.output_path.clone(),
        };
        Ok((summary, bytes))
    }

    pub fn is_complete(&self, state: &WorkflowState) -> (r: bool)
        ensures
            r == (state.generated_summary is Some),
    {
        state.generated_summary.is_some()
    }

    pub fn reset(&mut self, state: &mut WorkflowState)
        ensures
            final(self).output_path@.len() == 0,
            final(self).status_message is None,
            final(state).generated_summary is None,
    {
        self.output_path = String::new();
        self.status_message = None;
        state.generated_summary = None;
    }
}


/// The view of a positioned cell list: positions and values.
pub open spec fn pos_cells_view(cs: Seq<((usize, usize), String)>) -> Seq<((int, int), Seq<char>)> {
    cs.map_values(|e: ((usize, usize), String)| (((e.0.0 as int, e.0.1 as int)), e.1@))
}

/// The positioned cells one row produces: each mapping whose source column
/// the row covers and whose destination decodes, in mapping order.
pub open spec fn sheet_content_spec(ms: Seq<ColumnMapping>, row: Seq<String>) -> Seq<
    ((int, int), Seq<char>),
>
    decreases ms.len(),
{
    if ms.len() == 0 {
        Seq::empty()
    } else {
        sheet_content_spec(ms.drop_last(), row) + (match crate::flat::dec_addr(
            ms.last().cell_address@,
        ) {
            Some(p) => if (ms.last().column_index as int) < row.len() {
                seq![((p.0, p.1), row[ms.last().column_index as int]@)]
            } else {
                Seq::<((int, int), Seq<char>)>::empty()
            },
            None => Seq::<((int, int), Seq<char>)>::empty(),
        })
    }
}

/// The last positioned cell at a position, if any: when two mappings
/// target one address, the later mapping wins.
pub open spec fn last_cell_at(cs: Seq<((int, int), Seq<char>)>, r: int, c: int) -> Option<
    Seq<char>,
>
    decreases cs.len(),
{
    if cs.len() == 0 {
        None
    } else if cs.last().0 == (r, c) {
        Some(cs.last().1)
    } else {
        last_cell_at(cs.drop_last(), r, c)
    }
}

/// The largest row and column index among positioned cells.
pub open spec fn pos_max(cs: Seq<((int, int), Seq<char>)>) -> (int, int)
    decreases cs.len(),
{
    if cs.len() == 0 {
        (0, 0)
    } else {
        let m = pos_max(cs.drop_last());
        (
            if cs.last().0.0 > m.0 {
                cs.last().0.0
            } else {
                m.0
            },
            if cs.last().0.1 > m.1 {
                cs.last().0.1
            } else {
                m.1
            },
        )
    }
}

/// The content block of one cell position.
pub open spec fn ws_cell_block(v: Option<Seq<char>>) -> Seq<char> {
    match v {
        Some(s) => if s.len() == 0 {
            "          <table:table-cell/>\n"@
        } else {
            "          <table:table-cell office:value-type=\"string\"><text:p>"@
                + crate::xml::escape_chars(s) + "</text:p></table:table-cell>\n"@
        },
        None => "          <table:table-cell/>\n"@,
    }
}

pub open spec fn ws_cells_chunk(cs: Seq<((int, int), Seq<char>)>, rr: int, m: int) -> Seq<char>
    decreases m,
{
    if m <= 0 {
        Seq::empty()
    } else {
        ws_cells_chunk(cs, rr, m - 1) + ws_cell_block(last_cell_at(cs, rr, m - 1))
    }
}

pub open spec fn ws_row_block(cs: Seq<((int, int), Seq<char>)>, rr: int, m: int) -> Seq<char> {
    "        <table:table-row>\n"@ + ws_cells_chunk(cs, rr, m)
        + "        </table:table-row>\n"@
}

pub open spec fn ws_rows_chunk(cs: Seq<((int, int), Seq<char>)>, n: int, m: int) -> Seq<char>
    decreases n,
{
    if n <= 0 {
        Seq::empty()
    } else {
        ws_rows_chunk(cs, n - 1, m) + ws_row_block(cs, n - 1, m)
    }
}

/// The body of one generated table: a single empty row when no cell was
/// produced, else a full grid up to the largest addressed position, each
/// cell holding the first positioned value there.
pub open spec fn ws_table_body(cs: Seq<((int, int), Seq<char>)>) -> Seq<char> {
    if cs.len() == 0 {
        "        <table:table-row><table:table-cell/></table:table-row>\n"@
    } else {
        ws_rows_chunk(cs, pos_max(cs).0 + 1, pos_max(cs).1 + 1)
    }
}

pub open spec fn ws_table_block(
    ms: Seq<ColumnMapping>,
    row: Seq<String>,
    prefix: Seq<char>,
    i: int,
) -> Seq<char> {
    "      <table:table table:name=\""@ + crate::xml::escape_chars(
        prefix + " "@ + crate::cell::dec_digits((i + 1) as nat),
    ) + "\">\n"@ + ws_table_body(sheet_content_spec(ms, row)) + "      </table:table>\n"@
}

pub open spec fn ws_tables_chunk(
    ms: Seq<ColumnMapping>,
    rows: Seq<Vec<String>>,
    prefix: Seq<char>,
    n: int,
) -> Seq<char>
    decreases n,
{
    if n <= 0 {
        Seq::empty()
    } else {
        ws_tables_chunk(ms, rows, prefix, n - 1) + ws_table_block(ms, rows[n - 1]@, prefix, n - 1)
    }
}

/// The whole synthesized content document: one table per input row, named
/// `<prefix> <row number>`.
pub open spec fn ws_content_spec(
    ms: Seq<ColumnMapping>,
    rows: Seq<Vec<String>>,
    prefix: Seq<char>,
) -> Seq<char> {
    "<?xml version=\"1.0\" encoding=\"UTF-8\"?>\n"@
        + "<office:document-content xmlns:office=\"urn:oasis:names:tc:opendocument:xmlns:office:1.0\" xmlns:style=\"urn:oasis:names:tc:opendocument:xmlns:style:1.0\" xmlns:text=\"urn:oasis:names:tc:opendocument:xmlns:text:1.0\" xmlns:table=\"urn:oasis:names:tc:opendocument:xmlns:table:1.0\" office:version=\"1.2\">\n"@
        + "  <office:body>\n    <office:spreadsheet>\n"@ + ws_tables_chunk(
        ms,
        rows,
        prefix,
        rows.len() as int,
    ) + "    </office:spreadsheet>\n  </office:body>\n</office:document-content>\n"@
}

/// The dataset preview this step reads: where it came from, whether the
/// first record held headers, the per-column previews and the record count.
pub struct CsvPreviewState {
    pub path: String,
    pub uses_headers: bool,
    pub columns: Vec<crate::state::ColumnPreview>,
    pub total_rows: usize,
}

/// The template preview this step reads: the chosen file and sheet, and
/// the mapping list.
pub struct TemplatePreviewState {
    pub path: String,
    pub sheet_name: String,
    pub mappings: Vec<ColumnMapping>,
}

/// What the last run of this step produced.
pub struct WorksheetState {
    pub generated_sheet_count: usize,
    pub last_output_path: Option<String>,
    pub status_message: Option<String>,
}

/// The flat-worksheet generation step: synthesizes one table per input row
/// from the mapping list alone.
pub struct WorksheetGenerationModule {
    pub sheet_prefix: String,
    pub last_error: Option<String>,
    pub csv_preview: Option<CsvPreviewState>,
    pub template_preview: Option<TemplatePreviewState>,
    pub worksheet_state: WorksheetState,
}

impl WorksheetGenerationModule {
    pub fn new() -> (r: WorksheetGenerationModule)
        ensures
            r.sheet_prefix@ == "Sheet"@,
            r.last_error is None,
            r.csv_preview is None,
            r.template_preview is None,
            r.worksheet_state.generated_sheet_count == 0,
            r.worksheet_state.last_output_path is None,
            r.worksheet_state.status_message is None,
    {
        WorksheetGenerationModule {
            sheet_prefix: "Sheet".to_owned(),
            last_error: None,
            csv_preview: None,
            template_preview: None,
            worksheet_state: WorksheetState {
                generated_sheet_count: 0,
                last_output_path: None,
                status_message: None,
            },
        }
    }

    pub fn get_title(&self) -> (r: String)
        ensures
            r@ == "Generate bulk worksheets"@,
    {
        "Generate bulk worksheets".to_owned()
    }

    /// Whether a dataset preview is loaded.
    pub fn csv_state(&self) -> (r: bool)
        ensures
            r == (self.csv_preview is Some),
    {
        self.csv_preview.is_some()
    }

    /// Whether a template preview is loaded.
    pub fn template_state(&self) -> (r: bool)
        ensures
            r == (self.template_preview is Some),
    {
        self.template_preview.is_some()
    }

    /// Drops the header record from parsed rows when it was one.
    pub fn strip_header_row(rows: Vec<Vec<String>>, uses_headers: bool) -> (r: Vec<Vec<String>>)
        ensures
            r@ == (if uses_headers && rows@.len() > 0 {
                rows@.skip(1)
            } else {
                rows@
            }),
    {
        let mut rows = rows;
        if uses_headers && rows.len() > 0 {
            let ghost before = rows@;
            rows.remove(0);
            proof {
                assert(before.remove(0) =~= before.skip(1));
            }
        }
        rows
    }

    /// The positioned cells of one row, in mapping order.
    pub fn build_sheet_content(mappings: &Vec<ColumnMapping>, csv_row: &Vec<String>) -> (r: Vec<
        ((usize, usize), String),
    >)
        ensures
            pos_cells_view(r@) == sheet_content_spec(mappings@, csv_row@),
    {
        let ghost msv = mappings@;
        let mut cells: Vec<((usize, usize), String)> = Vec::new();
        proof {
            assert(msv.take(0) =~= Seq::<ColumnMapping>::empty());
            assert(pos_cells_view(cells@) =~= sheet_content_spec(msv.take(0), csv_row@));
        }
        let n = mappings.len();
        let mut k: usize = 0;
        while k < n
            invariant
                k <= n,
                n == msv.len(),
                msv == mappings@,
                pos_cells_view(cells@) == sheet_content_spec(msv.take(k as int), csv_row@),
            decreases n - k,
        {
            proof {
                assert(msv.take(k + 1).drop_last() =~= msv.take(k as int));
                assert(msv.take(k + 1).last() == msv[k as int]);
            }
            let idx = mappings[k].column_index;
            if idx < csv_row.len() {
                match crate::cell::parse_cell_address(mappings[k].cell_address.as_str()) {
                    Some(p) => {
                        cells.push((p, csv_row[idx].clone()));
                    },
                    None => {},
                }
            }
            proof {
                assert(pos_cells_view(cells@) =~= sheet_content_spec(msv.take(k + 1), csv_row@));
            }
            k += 1;
        }
        proof {
            assert(msv.take(n as int) =~= msv);
        }
        cells
    }

    /// Builds the synthesized content document.
    pub fn build_content_xml(
        template: &TemplatePreviewState,
        csv_rows: &Vec<Vec<String>>,
        sheet_prefix: &str,
    ) -> (r: String)
        ensures
            r@ == ws_content_spec(template.mappings@, csv_rows@, sheet_prefix@),
    {
        let ghost msv = template.mappings@;
        let ghost rowsv = csv_rows@;
        let mut out = "<?xml version=\"1.0\" encoding=\"UTF-8\"?>\n".to_owned();
        out.append(
            "<office:document-content xmlns:office=\"urn:oasis:names:tc:opendocument:xmlns:office:1.0\" xmlns:style=\"urn:oasis:names:tc:opendocument:xmlns:style:1.0\" xmlns:text=\"urn:oasis:names:tc:opendocument:xmlns:text:1.0\" xmlns:table=\"urn:oasis:names:tc:opendocument:xmlns:table:1.0\" office:version=\"1.2\">\n",
        );
        out.append("  <office:body>\n    <office:spreadsheet>\n");
        let ghost head = out@;
        proof {
            assert(out@ =~= head + ws_tables_chunk(msv, rowsv, sheet_prefix@, 0));
        }
        let n = csv_rows.len();
        let mut i: usize = 0;
        while i < n
            invariant
                i <= n,
                n == rowsv.len(),
                rowsv == csv_rows@,
                msv == template.mappings@,
                out@ == head + ws_tables_chunk(msv, rowsv, sheet_prefix@, i as int),
            decreases n - i,
        {
            out.append("      <table:table table:name=\"");
            let mut nm = sheet_prefix.to_owned();
            nm.append(" ");
            let d = dec_string((i + 1) as u64);
            nm.append(d.as_str());
            let esc = crate::xml::xml_escape(nm.as_str());
            out.append(esc.as_str());
            out.append("\">\n");
            let cells = Self::build_sheet_content(&template.mappings, &csv_rows[i]);
            let ghost cv = pos_cells_view(cells@);
            if cells.len() == 0 {
                out.append("        <table:table-row><table:table-cell/></table:table-row>\n");
                proof {
                    assert(cv =~= Seq::<((int, int), Seq<char>)>::empty());
                }
            } else {
                let (max_r, max_c) = Self::pos_max_x(&cells);
                let ghost body_head = out@;
                proof {
                    assert(out@ =~= body_head + ws_rows_chunk(cv, 0, max_c as int + 1));
                }
                let mut rr: usize = 0;
                loop
                    invariant_except_break
                        rr <= max_r,
                        out@ == body_head + ws_rows_chunk(cv, rr as int, max_c as int + 1),
                    invariant
                        cv == pos_cells_view(cells@),
                        cv.len() > 0,
                        max_r as int == pos_max(cv).0,
                        max_c as int == pos_max(cv).1,
                    ensures
                        out@ == body_head + ws_rows_chunk(cv, max_r as int + 1, max_c as int + 1),
                    decreases max_r - rr,
                {
                    out.append("        <table:table-row>\n");
                    let ghost row_head = out@;
                    proof {
                        assert(out@ =~= row_head + ws_cells_chunk(cv, rr as int, 0));
                    }
                    let mut cc: usize = 0;
                    loop
                        invariant_except_break
                            cc <= max_c,
                            out@ == row_head + ws_cells_chunk(cv, rr as int, cc as int),
                        invariant
                            cv == pos_cells_view(cells@),
                            max_c as int == pos_max(cv).1,
                            cells@.len() == cv.len(),
                        ensures
                            out@ == row_head + ws_cells_chunk(cv, rr as int, max_c as int + 1),
                            cv == pos_cells_view(cells@),
                            cells@.len() == cv.len(),
                        decreases max_c - cc,
                    {
                        match Self::last_cell_at_x(&cells, rr, cc) {
                            Some(v) => {
                                if v.as_str().is_empty() {
                                    out.append("          <table:table-cell/>\n");
                                } else {
                                    out.append(
                                        "          <table:table-cell office:value-type=\"string\"><text:p>",
                                    );
                                    let ev = crate::xml::xml_escape(v.as_str());
                                    out.append(ev.as_str());
                                    out.append("</text:p></table:table-cell>\n");
                                }
                            },
                            None => {
                                out.append("          <table:table-cell/>\n");
                            },
                        }
                        if cc == max_c {
                            break ;
                        }
                        cc += 1;
                    }
                    out.append("        </table:table-row>\n");
                    proof {
                        assert(out@ =~= body_head + ws_rows_chunk(cv, rr as int + 1, max_c as int
                            + 1));
                    }
                    if rr == max_r {
                        break ;
                    }
                    rr += 1;
                }
            }
            out.append("      </table:table>\n");
            proof {
                assert(out@ =~= head + ws_tables_chunk(msv, rowsv, sheet_prefix@, i + 1));
            }
            i += 1;
        }
        out.append("    </office:spreadsheet>\n  </office:body>\n</office:document-content>\n");
        out
    }

    /// The largest addressed position among positioned cells.
    fn pos_max_x(cells: &Vec<((usize, usize), String)>) -> (r: (usize, usize))
        requires
            cells@.len() > 0,
        ensures
            r.0 as int == pos_max(pos_cells_view(cells@)).0,
            r.1 as int == pos_max(pos_cells_view(cells@)).1,
    {
        let ghost cv = pos_cells_view(cells@);
        let mut max_r: usize = 0;
        let mut max_c: usize = 0;
        proof {
            assert(cv.take(0) =~= Seq::<((int, int), Seq<char>)>::empty());
        }
        let n = cells.len();
        let mut k: usize = 0;
        while k < n
            invariant
                k <= n,
                n == cv.len(),
                cv == pos_cells_view(cells@),
                pos_max(cv.take(k as int)) == (max_r as int, max_c as int),
            decreases n - k,
        {
            proof {
                assert(cv.take(k + 1).drop_last() =~= cv.take(k as int));
                assert(cv.take(k + 1).last() == cv[k as int]);
            }
            if cells[k].0.0 > max_r {
                max_r = cells[k].0.0;
            }
            if cells[k].0.1 > max_c {
                max_c = cells[k].0.1;
            }
            k += 1;
        }
        proof {
            assert(cv.take(n as int) =~= cv);
        }
        (max_r, max_c)
    }

    /// The first positioned cell at a position, if any.
    fn last_cell_at_x<'a>(
        cells: &'a Vec<((usize, usize), String)>,
        rr: usize,
        cc: usize,
    ) -> (r: Option<&'a String>)
        ensures
            match last_cell_at(pos_cells_view(cells@), rr as int, cc as int) {
                Some(v) => r matches Some(s) && s@ == v,
                None => r is None,
            },
    {
        let ghost cv = pos_cells_view(cells@);
        proof {
            assert(cv.take(cells@.len() as int) =~= cv);
        }
        let mut k = cells.len();
        while k > 0
            invariant
                k <= cv.len(),
                cv == pos_cells_view(cells@),
                cv.len() == cells@.len(),
                last_cell_at(cv, rr as int, cc as int) == last_cell_at(
                    cv.take(k as int),
                    rr as int,
                    cc as int,
                ),
            decreases k,
        {
            k = k - 1;
            proof {
                let q = cv.take(k + 1);
                assert(q.drop_last() =~= cv.take(k as int));
                assert(q.last() == cv[k as int]);
            }
            if cells[k].0.0 == rr && cells[k].0.1 == cc {
                proof {
                    assert(cv[k as int].0 == (rr as int, cc as int));
                }
                return Some(&cells[k].1);
            }
            proof {
                assert(cv[k as int].0 != (rr as int, cc as int));
            }
        }
        proof {
            assert(cv.take(0) =~= Seq::<((int, int), Seq<char>)>::empty());
        }
        None
    }

    /// Records the outcome of the last run.
    pub fn update_status(
        &mut self,
        sheets: usize,
        output_path: Option<String>,
        message: Option<String>,
    )
        ensures
            final(self).worksheet_state.generated_sheet_count == sheets,
            final(self).worksheet_state.last_output_path == output_path,
            final(self).worksheet_state.status_message == message,
            final(self).sheet_prefix == old(self).sheet_prefix,
            final(self).csv_preview == old(self).csv_preview,
            final(self).template_preview == old(self).template_preview,
    {
        self.worksheet_state = WorksheetState {
            generated_sheet_count: sheets,
            last_output_path: output_path,
            status_message: message,
        };
    }

    /// One run: synthesizes the content document for the rows and renders
    /// the flat package bytes for the caller to persist.
    pub fn generate(&self, csv_rows: &Vec<Vec<String>>) -> (r: Result<(Vec<u8>, usize), String>)
        ensures
            match r {
                Ok(p) => {
                    &&& self.template_preview is Some
                    &&& csv_rows@.len() > 0
                    &&& p.1 == csv_rows@.len()
                    &&& (match self.template_preview {
                        Some(ref tp) => crate::container::archive_parts_of(p.0@) == Some(
                            crate::flat::flat_parts_spec(
                                ws_content_spec(tp.mappings@, csv_rows@, self.sheet_prefix@),
                                crate::flat::flat_manifest_spec(),
                            ),
                        ),
                        None => false,
                    })
                },
                Err(e) => if self.template_preview is None {
                    e@ == "Select a template worksheet first"@
                } else if csv_rows@.len() == 0 {
                    e@ == "The CSV does not contain any data rows"@
                } else {
                    e@ == "Failed to finish ODS"@
                },
            },
            match self.template_preview {
                Some(ref tp) => csv_rows@.len() > 0 ==> ((r is Ok)
                    == crate::container::archive_write_ok(
                    crate::flat::flat_parts_full_spec(
                        ws_content_spec(tp.mappings@, csv_rows@, self.sheet_prefix@),
                        crate::flat::flat_manifest_spec(),
                    ),
                )),
                None => true,
            },
    {
        let template = match &self.template_preview {
            Some(tp) => tp,
            None => {
                return Err("Select a template worksheet first".to_owned());
            },
        };
        if csv_rows.len() == 0 {
            return Err("The CSV does not contain any data rows".to_owned());
        }
        let content_xml = Self::build_content_xml(template, csv_rows, self.sheet_prefix.as_str());
        let manifest_xml = crate::flat::build_manifest_xml();
        let parts = crate::flat::flat_package_parts(content_xml.as_str(), manifest_xml.as_str());
        proof {
            assert forall|j: int|
                0 <= j < parts@.len() implies crate::container::part_name_ok(
                #[trigger] parts@[j].name@,
            ) by {
                assert(crate::container::parts_view(parts@)[j].0 == parts@[j].name@);
                reveal_strlit("mimetype");
                reveal_strlit("META-INF/manifest.xml");
                reveal_strlit("content.xml");
            };
        }
        match crate::container::write_archive(&parts) {
            Ok(b) => Ok((b, csv_rows.len())),
            Err(_) => Err("Failed to finish ODS".to_owned()),
        }
    }

    pub fn is_complete(&self) -> (r: bool)
        ensures
            r == (self.worksheet_state.last_output_path is Some),
    {
        self.worksheet_state.last_output_path.is_some()
    }

    pub fn reset(&mut self)
        ensures
            final(self).last_error is None,
            final(self).worksheet_state.generated_sheet_count == 0,
            final(self).worksheet_state.last_output_path is None,
            final(self).worksheet_state.status_message is None,
    {
        self.last_error = None;
        self.worksheet_state = WorksheetState {
            generated_sheet_count: 0,
            last_output_path: None,
            status_message: None,
        };
    }
}

} // verus!
