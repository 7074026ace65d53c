use azure_vm_info::read_csv::{flex_csv_fault, parse_flex_csv, CsvError, CsvRow, FlexGroups};

fn lines(text: &[&str]) -> Vec<String> {
    text.iter().map(|s| s.to_string()).collect()
}

const HEADER: &str = "InstanceSizeFlexibilityGroup,ArmSkuName,Ratio";

#[test]
fn flex_table_rows_and_groups() {
    let input = lines(&[
        HEADER,
        "BS Series High Memory,Standard_B2ms,1",
        "BS Series High Memory,Standard_B4ms,2",
        "DSv3 Series,Standard_D2s_v3,1",
        "BS Series High Memory,Standard_B2ms_b,1",
        "DSv3 Series,Standard_D4s_v3,2.5",
    ]);
    assert_eq!(flex_csv_fault(&input), None);
    let (rows, groups) = parse_flex_csv(&input);
    assert_eq!(rows.len(), 5);
    assert_eq!(
        rows[1],
        CsvRow {
            flex_group: "BS Series High Memory".to_string(),
            flex_sku_name: "Standard_B4ms".to_string(),
            flex_ratio: "2".to_string(),
        }
    );
    assert_eq!(
        groups.get("BS Series High Memory").unwrap(),
        &vec!["Standard_B2ms".to_string(), "Standard_B2ms_b".to_string()]
    );
    assert_eq!(groups.get("DSv3 Series").unwrap(), &vec!["Standard_D2s_v3".to_string()]);
    assert!(groups.get("Other").is_none());
}

#[test]
fn flex_table_header_is_trimmed() {
    let input = lines(&["  InstanceSizeFlexibilityGroup,ArmSkuName,Ratio \r", "G,S,1"]);
    let (rows, groups) = parse_flex_csv(&input);
    assert_eq!(rows.len(), 1);
    assert_eq!(groups.get("G").unwrap(), &vec!["S".to_string()]);
}

#[test]
fn flex_table_errors() {
    assert_eq!(
        flex_csv_fault(&lines(&["Group,Sku,Ratio", "G,S,1"])),
        Some(CsvError::InvalidHeader)
    );
    assert_eq!(
        flex_csv_fault(&lines(&[HEADER, "G,S,1", "G,S"])),
        Some(CsvError::InvalidColumnCount { line: 2 })
    );
    assert_eq!(
        flex_csv_fault(&lines(&[HEADER, "G,S,1,x"])),
        Some(CsvError::InvalidColumnCount { line: 1 })
    );
    assert_eq!(
        flex_csv_fault(&lines(&[HEADER, "G,S,one", "G,S"])),
        Some(CsvError::InvalidRatio { line: 1 })
    );
    assert_eq!(
        flex_csv_fault(&lines(&[HEADER, "G,S,1", ""])),
        Some(CsvError::InvalidColumnCount { line: 2 })
    );
}

#[test]
fn flex_table_empty_text() {
    let (rows, groups) = parse_flex_csv(&Vec::new());
    assert!(rows.is_empty());
    assert!(groups.get("G").is_none());
    let (rows, _) = parse_flex_csv(&lines(&[HEADER]));
    assert!(rows.is_empty());
}

#[test]
fn flex_groups_add() {
    let mut groups = FlexGroups::new();
    groups.add("A", "a1");
    groups.add("B", "b1");
    groups.add("A", "a2");
    assert_eq!(groups.get("A").unwrap(), &vec!["a1".to_string(), "a2".to_string()]);
    assert_eq!(groups.get("B").unwrap(), &vec!["b1".to_string()]);
}
