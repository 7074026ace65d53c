use azure_vm_info::az::vmlist::{FlexLookUp, VirtualMachines, VM};
use azure_vm_info::{
    escape_csv_field, plan_summary, sorted_flex_groups, SummaryError,
};

#[test]
fn csv_fields_are_escaped() {
    assert_eq!(escape_csv_field("plain text"), "plain text");
    assert_eq!(escape_csv_field("a,b"), "\"a,b\"");
    assert_eq!(escape_csv_field("say \"hi\""), "\"say \"\"hi\"\"\"");
    assert_eq!(escape_csv_field(""), "");
    assert_eq!(escape_csv_field("\""), "\"\"\"\"");
}

/// Reads a field back the way a CSV reader does.
fn read_back(field: &str) -> String {
    if field.len() >= 2 && field.starts_with('"') && field.ends_with('"') {
        field[1..field.len() - 1].replace("\"\"", "\"")
    } else {
        field.to_string()
    }
}

#[test]
fn escaped_fields_read_back() {
    for s in ["", "x", "a,b", "\"", "\"\"", "a\"b,c\"", "\"quoted\"", "no comma"] {
        assert_eq!(read_back(&escape_csv_field(s)), s);
    }
}

fn vm(size: &str, group: Option<(&str, &str)>) -> VM {
    VM {
        id: "id".to_string(),
        vm_id: "id".to_string(),
        name: format!("vm-{size}"),
        location: "australiaeast".to_string(),
        zones: None,
        flex_lookup: group.map(|(g, ratio)| FlexLookUp {
            flex_group: g.to_string(),
            flex_sku_name: size.to_string(),
            flex_ratio: ratio.to_string(),
            flex_options: vec!["Standard_base".to_string()],
        }),
        vm_size: size.to_string(),
    }
}

#[test]
fn summary_groups_in_order_and_sorted() {
    let vms = VirtualMachines(vec![
        vm("Standard_D4s_v3", Some(("DSv3 Series", "2"))),
        vm("Standard_B2ms", Some(("BS Series", "1"))),
        vm("Standard_D2s_v3", Some(("DSv3 Series", "1"))),
        vm("Standard_A1_v2", Some(("Av2 Series", "0.5"))),
    ]);
    let plan = plan_summary(&vms);
    assert_eq!(plan.failure, None);
    assert_eq!(plan.new_group, vec![true, true, false, true]);
    assert_eq!(plan.groups, vec!["DSv3 Series", "BS Series", "Av2 Series"]);
    assert_eq!(
        sorted_flex_groups(&plan),
        vec!["Av2 Series", "BS Series", "DSv3 Series"]
    );
}

#[test]
fn summary_stops_at_first_fault() {
    let vms = VirtualMachines(vec![
        vm("Standard_B2ms", Some(("BS Series", "1"))),
        vm("Standard_B4ms", None),
        vm("A1", Some(("Av2 Series", "1"))),
    ]);
    let plan = plan_summary(&vms);
    assert_eq!(plan.new_group, vec![true]);
    assert_eq!(plan.failure, Some(SummaryError::NoFlexLookup { vm: 1 }));

    let vms = VirtualMachines(vec![vm("A1", Some(("Av2 Series", "1")))]);
    assert_eq!(plan_summary(&vms).failure, Some(SummaryError::ShortVmSize { vm: 0 }));

    let vms = VirtualMachines(vec![vm("Standard_B2ms", Some(("BS Series", "one")))]);
    let plan = plan_summary(&vms);
    assert_eq!(plan.failure, Some(SummaryError::BadFlexRatio { vm: 0 }));
    assert!(plan.groups.is_empty());
}
