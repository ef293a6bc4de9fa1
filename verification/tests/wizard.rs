use sheetgen::errors::GenError;
use sheetgen::modules::{
    BulkCreateModule, BulkCreationModule, CsvImportModule, OdfImportModule, OdfTemplateModule,
    TemplatePreviewState, TestUiModule, WorksheetGenerationModule,
};
use sheetgen::state::{CellMapping, SharedState};
use sheetgen::workflow::{ColumnMapping, CsvPreview, WorkflowState};

fn rows(data: &[&[&str]]) -> Vec<Vec<String>> {
    data.iter().map(|r| r.iter().map(|s| s.to_string()).collect()).collect()
}

#[test]
fn test_ui_module_completes_and_resets() {
    let mut m = TestUiModule::new();
    assert!(!m.is_complete());
    m.complete();
    assert!(m.is_complete());
    m.reset();
    assert!(!m.is_complete());
    assert_eq!(m.get_title(), "Test");
}

#[test]
fn shared_state_resets() {
    let mut s = SharedState::new();
    s.csv_headers = vec!["h1".to_string(), "h2".to_string()];
    s.csv_rows = rows(&[&["a", "b"]]);
    s.odf_path = Some("t.xlsx".to_string());
    s.selected_sheet = Some("Data".to_string());
    s.cell_mappings = vec![CellMapping::new(0, "A1".to_string())];
    s.reset_template();
    assert!(s.odf_path.is_none());
    assert!(s.selected_sheet.is_none());
    assert_eq!(s.cell_mappings.len(), 1);
    assert_eq!(s.cell_mappings[0].cell_ref, "");
    assert_eq!(s.cell_mappings[0].column_index, 0);
    s.reset_csv();
    assert!(s.csv_rows.is_empty());
    assert!(s.cell_mappings.is_empty());
}

#[test]
fn ensure_cell_mappings_tracks_headers() {
    let mut s = SharedState::new();
    s.csv_headers = vec!["a".to_string(), "b".to_string(), "c".to_string()];
    s.ensure_cell_mappings();
    assert_eq!(s.cell_mappings.len(), 3);
    assert_eq!(s.cell_mappings[2].column_index, 2);
    s.csv_headers.truncate(1);
    s.ensure_cell_mappings();
    assert_eq!(s.cell_mappings.len(), 1);
}

#[test]
fn csv_preview_splits_headers_and_samples() {
    let data = rows(&[&["h1", "h2"], &["a1", "a2"], &["b1", "b2"]]);
    let p = CsvImportModule::read_csv_preview(&data, true).unwrap();
    assert_eq!(p.headers, vec!["h1".to_string(), "h2".to_string()]);
    assert_eq!(p.sample_rows.len(), 2);
    assert_eq!(p.sample_rows[0][0], "a1");
    let q = CsvImportModule::read_csv_preview(&data, false).unwrap();
    assert!(q.headers.is_empty());
    assert_eq!(q.sample_rows.len(), 3);
    let empty: Vec<Vec<String>> = Vec::new();
    assert_eq!(
        CsvImportModule::read_csv_preview(&empty, true).unwrap_err(),
        "The selected CSV does not contain any data".to_string()
    );
}

#[test]
fn csv_preview_samples_are_capped_at_five() {
    let data = rows(&[&["h"], &["1"], &["2"], &["3"], &["4"], &["5"], &["6"], &["7"]]);
    let p = CsvImportModule::read_csv_preview(&data, true).unwrap();
    assert_eq!(p.sample_rows.len(), 5);
    assert_eq!(p.sample_rows[4][0], "5");
}

#[test]
fn odf_import_applies_template_state() {
    let mut m = OdfImportModule::new();
    let mut s = SharedState::new();
    m.open_template(
        &mut s,
        "book.ods".to_string(),
        Ok(vec!["First".to_string(), "Second".to_string()]),
        Ok(vec![("A1".to_string(), "v".to_string())]),
    );
    assert_eq!(s.odf_path, Some("book.ods".to_string()));
    assert_eq!(s.selected_sheet, Some("First".to_string()));
    assert_eq!(s.template_cell_values.len(), 1);
    m.reload_selected_sheet(&mut s, Err("broken sheet".to_string()));
    assert_eq!(s.template_cell_values.len(), 1);
}

#[test]
fn odf_template_samples_and_mapping_flow() {
    let mut m = OdfTemplateModule::new();
    let mut w = WorkflowState::new();
    m.load_sample_template(&mut w);
    assert_eq!(m.available_sheets.len(), 2);
    m.apply_sheet_selection(&mut w, "Template".to_string());
    assert_eq!(w.template_cells.len(), 4);
    let cells = m.current_sheet_cells(&w);
    assert_eq!(cells[0].address, "A1");
    assert_eq!(cells[0].value, "Project Name");

    w.csv_preview = Some(CsvPreview {
        headers: vec!["Name".to_string(), "Owner".to_string()],
        sample_rows: rows(&[&["n", "o"]]),
    });
    m.pending_column = Some(1);
    m.pending_cell = "  b1 ".to_string();
    m.add_mapping(&mut w);
    assert_eq!(w.column_mappings.len(), 1);
    assert_eq!(w.column_mappings[0].cell_address, "B1");
    assert_eq!(w.column_mappings[0].column_label, "Owner");

    m.pending_column = Some(0);
    m.pending_cell = "B1".to_string();
    m.add_mapping(&mut w);
    assert_eq!(w.column_mappings.len(), 1);
    assert_eq!(w.column_mappings[0].column_index, 0);
    assert_eq!(w.column_mappings[0].column_label, "Name");

    m.pending_cell = "Z9".to_string();
    m.add_mapping(&mut w);
    assert_eq!(w.column_mappings.len(), 1);
    assert_eq!(
        m.status_message,
        Some("Cell not present in the template preview.".to_string())
    );
}

#[test]
fn bulk_create_validates_inputs_in_order() {
    let mut s = SharedState::new();
    let m = BulkCreateModule::new(s);
    assert_eq!(
        m.validate_inputs(),
        Err("Import a CSV file before generating sheets.".to_string())
    );
    s = SharedState::new();
    s.csv_rows = rows(&[&["a"]]);
    let m = BulkCreateModule::new(s);
    assert_eq!(m.validate_inputs(), Err("Select a template workbook and sheet.".to_string()));
    s = SharedState::new();
    s.csv_rows = rows(&[&["a"]]);
    s.odf_path = Some("t.xlsx".to_string());
    s.selected_sheet = Some("Data".to_string());
    s.cell_mappings = vec![CellMapping::new(0, "  ".to_string())];
    let m = BulkCreateModule::new(s);
    assert_eq!(
        m.validate_inputs(),
        Err("Assign at least one CSV column to a template cell.".to_string())
    );
}

#[test]
fn bulk_create_without_sheet_choice_reports_sheet_not_found() {
    let mut s = SharedState::new();
    s.csv_rows = rows(&[&["a"]]);
    let m = BulkCreateModule::new(s);
    assert_eq!(m.build_workbook(b"irrelevant"), Err(GenError::SheetNotFound));
}

#[test]
fn bulk_create_records_outcomes() {
    let mut m = BulkCreateModule::new(SharedState::new());
    m.record_outcome("out.xlsx".to_string(), Ok(3));
    assert_eq!(
        m.status_message,
        Some("Created 3 sheet(s) using the template.".to_string())
    );
    assert_eq!(m.save_path, Some("out.xlsx".to_string()));
    assert!(m.is_complete());
    m.record_outcome("other.xlsx".to_string(), Err("boom".to_string()));
    assert_eq!(m.error_message, Some("boom".to_string()));
    m.reset();
    assert!(!m.is_complete());
}

#[test]
fn bulk_creation_builds_a_flat_package() {
    let mut m = BulkCreationModule::new();
    m.output_path = "out.ods".to_string();
    let mut w = WorkflowState::new();
    assert_eq!(
        m.save_bulk_document(&mut w).unwrap_err(),
        "Import CSV data before generating worksheets.".to_string()
    );
    w.csv_preview = Some(CsvPreview {
        headers: vec!["H".to_string()],
        sample_rows: rows(&[&["v1"], &["v2"]]),
    });
    assert_eq!(
        m.save_bulk_document(&mut w).unwrap_err(),
        "No template cells available.".to_string()
    );
    w.template_sheet_name = Some("Plan".to_string());
    w.template_cells = vec![sheetgen::workflow::CellPreview {
        address: "A1".to_string(),
        value: "base".to_string(),
    }];
    assert_eq!(
        m.save_bulk_document(&mut w).unwrap_err(),
        "No column mappings defined.".to_string()
    );
    w.column_mappings = vec![ColumnMapping {
        column_index: 0,
        column_label: "H".to_string(),
        cell_address: "A1".to_string(),
    }];
    let (summary, bytes) = m.save_bulk_document(&mut w).unwrap();
    assert_eq!(summary.sheet_count, 2);
    assert_eq!(summary.output_path, "out.ods");
    let mut za = zip::ZipArchive::new(std::io::Cursor::new(&bytes[..])).unwrap();
    let mut s = String::new();
    std::io::Read::read_to_string(&mut za.by_name("content.xml").unwrap(), &mut s).unwrap();
    assert!(s.contains("<table:table table:name=\"Plan 1\">"));
    assert!(s.contains("<table:table table:name=\"Plan 2\">"));
    assert!(s.contains("<text:p>v1</text:p>"));
    assert!(s.contains("<text:p>v2</text:p>"));
}

#[test]
fn worksheet_generation_builds_content_and_package() {
    let mut m = WorksheetGenerationModule::new();
    assert_eq!(m.sheet_prefix, "Sheet");
    let data = rows(&[&["h"], &["a"], &["b"]]);
    let stripped = WorksheetGenerationModule::strip_header_row(data, true);
    assert_eq!(stripped.len(), 2);

    let template = TemplatePreviewState {
        path: "t.ods".to_string(),
        sheet_name: "S".to_string(),
        mappings: vec![ColumnMapping {
            column_index: 0,
            column_label: "h".to_string(),
            cell_address: "B2".to_string(),
        }],
    };
    let xml = WorksheetGenerationModule::build_content_xml(&template, &stripped, "Sheet");
    assert!(xml.contains("<table:table table:name=\"Sheet 1\">"));
    assert!(xml.contains("<table:table table:name=\"Sheet 2\">"));
    assert!(xml.contains("<text:p>a</text:p>"));

    let cells = WorksheetGenerationModule::build_sheet_content(
        &template.mappings,
        &vec!["val".to_string()],
    );
    assert_eq!(cells, vec![((1usize, 1usize), "val".to_string())]);

    m.template_preview = Some(template);
    let (bytes, count) = m.generate(&stripped).unwrap();
    assert_eq!(count, 2);
    let mut za = zip::ZipArchive::new(std::io::Cursor::new(&bytes[..])).unwrap();
    let mut s = String::new();
    std::io::Read::read_to_string(&mut za.by_name("content.xml").unwrap(), &mut s).unwrap();
    assert!(s.contains("office:version=\"1.2\""));
    m.update_status(2, Some("o.ods".to_string()), Some("done".to_string()));
    assert!(m.is_complete());
    m.reset();
    assert!(!m.is_complete());
}

#[test]
fn worksheet_generation_reports_missing_inputs() {
    let m = WorksheetGenerationModule::new();
    let data = rows(&[&["a"]]);
    assert_eq!(m.generate(&data), Err("Select a template worksheet first".to_string()));
    let mut m2 = WorksheetGenerationModule::new();
    m2.template_preview = Some(TemplatePreviewState {
        path: "t".to_string(),
        sheet_name: "S".to_string(),
        mappings: Vec::new(),
    });
    let empty: Vec<Vec<String>> = Vec::new();
    assert_eq!(m2.generate(&empty), Err("The CSV does not contain any data rows".to_string()));
}

#[test]
fn worksheet_generation_last_mapping_wins_per_address() {
    let template = TemplatePreviewState {
        path: "t.ods".to_string(),
        sheet_name: "S".to_string(),
        mappings: vec![
            ColumnMapping {
                column_index: 0,
                column_label: "first".to_string(),
                cell_address: "A1".to_string(),
            },
            ColumnMapping {
                column_index: 1,
                column_label: "second".to_string(),
                cell_address: "A1".to_string(),
            },
        ],
    };
    let data = rows(&[&["early", "late"]]);
    let xml = WorksheetGenerationModule::build_content_xml(&template, &data, "Sheet");
    assert!(xml.contains("<text:p>late</text:p>"));
    assert!(!xml.contains("<text:p>early</text:p>"));
}
