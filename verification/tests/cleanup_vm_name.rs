use azure_vm_info::az::pricing::retrieve::PriceOption;
use azure_vm_info::cleanup_vm_name::{split_and_cleanup_name, split_price_type, VmPriceType};

#[test]
fn test_split_price_type() {
    let price_option = PriceOption {
        sku_name: "Standard_DS11_v2".to_string(),
        product_name: "Standard_DS11_v2".to_string(),
        type_bill: "DevTestConsumption".to_string(),
        ..Default::default()
    };
    assert_eq!(
        split_price_type(&price_option),
        ("Standard_DS11_v2".to_string(), VmPriceType::DevTest)
    );
}

#[test]
fn test_split_and_cleanup_name() {
    assert_eq!(split_and_cleanup_name("MyVm/2ndVm"), vec!["MyVm", "2ndVm"]);
    assert_eq!(
        split_and_cleanup_name("Standard_MyVm/3ndVm"),
        vec!["MyVm", "3ndVm"]
    );
    assert_eq!(
        split_and_cleanup_name("Standard_MyVm/Standard_4thVm"),
        vec!["MyVm", "4thVm"]
    );
    assert_eq!(
        split_and_cleanup_name("Standard_DS11-1_v2"),
        vec!["DS11-1 v2"]
    );
    assert_eq!(split_and_cleanup_name("Standard_DS11_v2"), vec!["DS11 v2"]);
}

#[test]
fn cleanup_vm_name_test_az_parse_simple_subscription() {}

fn option(sku: &str, product: &str, bill: &str) -> PriceOption {
    PriceOption {
        sku_name: sku.to_string(),
        product_name: product.to_string(),
        type_bill: bill.to_string(),
        ..Default::default()
    }
}

#[test]
fn split_price_type_spot_and_low_priority() {
    assert_eq!(
        split_price_type(&option("D2s v3 Spot", "Virtual Machines DSv3 Series", "Consumption")),
        ("D2s v3".to_string(), VmPriceType::Spot)
    );
    assert_eq!(
        split_price_type(&option(
            "D2s v3 Spot",
            "Virtual Machines DSv3 Series Windows",
            "Consumption"
        )),
        ("D2s v3".to_string(), VmPriceType::SpotWindows)
    );
    assert_eq!(
        split_price_type(&option(
            "D2s v3 Low Priority",
            "Virtual Machines DSv3 Series",
            "Consumption"
        )),
        ("D2s v3".to_string(), VmPriceType::LowPriority)
    );
    assert_eq!(
        split_price_type(&option(
            "D2s v3 Low Priority",
            "Virtual Machines DSv3 Series Windows",
            "Consumption"
        )),
        ("D2s v3".to_string(), VmPriceType::LowPriorityWindows)
    );
}

#[test]
fn split_price_type_normal_and_devtest() {
    assert_eq!(
        split_price_type(&option(" B1ls ", "Virtual Machines BS Series", "Consumption")),
        (" B1ls ".to_string(), VmPriceType::Normal)
    );
    assert_eq!(
        split_price_type(&option("B1ls", "Virtual Machines BS Series Windows", "Reservation")),
        ("B1ls".to_string(), VmPriceType::NormalWindows)
    );
    // a DevTest record keeps a Spot label and only loses white space
    assert_eq!(
        split_price_type(&option(
            " B1ls Spot ",
            "Virtual Machines BS Series Windows",
            "DevTestConsumption"
        )),
        ("B1ls Spot".to_string(), VmPriceType::DevTestWindows)
    );
    // "Spot" is cut off without the space, which trimming then removes
    assert_eq!(
        split_price_type(&option("B1lsSpot", "x", "Consumption")),
        ("B1ls".to_string(), VmPriceType::Spot)
    );
}

#[test]
fn price_type_labels() {
    assert_eq!(VmPriceType::Spot.to_str(), "Spot");
    assert_eq!(VmPriceType::SpotWindows.to_str(), "Spot Windows");
    assert_eq!(VmPriceType::LowPriority.to_str(), "Low Priority");
    assert_eq!(VmPriceType::LowPriorityWindows.to_str(), "Low Priority Windows");
    assert_eq!(VmPriceType::DevTest.to_str(), "DevTest");
    assert_eq!(VmPriceType::DevTestWindows.to_str(), "DevTestWindows");
    assert_eq!(VmPriceType::Normal.to_str(), "");
    assert_eq!(VmPriceType::NormalWindows.to_str(), "Windows");
}

#[test]
fn cleaned_names_have_no_separators() {
    for name in ["a/b_c/Standard_d_e", "", "/", "Standard_", "Standard_Standard_X", "x__y//z"] {
        let pieces = split_and_cleanup_name(name);
        assert_eq!(pieces.len(), name.matches('/').count() + 1);
        for p in &pieces {
            assert!(!p.contains('/'));
            assert!(!p.contains('_'));
        }
    }
    assert_eq!(split_and_cleanup_name("Standard_Standard_X"), vec!["Standard X"]);
    assert_eq!(split_and_cleanup_name("//"), vec!["", "", ""]);
}
