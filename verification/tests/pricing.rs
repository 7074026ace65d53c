use azure_vm_info::az::pricing::retrieve::PriceOption;
use azure_vm_info::pricing_data::{
    choose_price_actions, flex_base_sku, price_actions_fault, price_option_action,
    pricing_query_command, OptionFault, PriceAction, PricingError, ARM_REGION_NAME,
};

fn record(sku: &str, product: &str, bill: &str, term: Option<&str>) -> PriceOption {
    PriceOption {
        arm_region_name: "australiaeast".to_string(),
        arm_sku_name: "Standard_B1ls".to_string(),
        currency_code: "USD".to_string(),
        location: "AU East".to_string(),
        product_name: product.to_string(),
        sku_name: sku.to_string(),
        meter_name: sku.to_string(),
        reservation_term: term.map(|t| t.to_string()),
        type_bill: bill.to_string(),
        unit_of_measure: "1 Hour".to_string(),
        service_name: "Virtual Machines".to_string(),
    }
}

fn b1ls_records() -> Vec<PriceOption> {
    vec![
        record("B1ls", "Virtual Machines BS Series Windows", "Consumption", None),
        record("B1ls", "Virtual Machines BS Series Windows", "DevTestConsumption", None),
        record("B1ls", "Virtual Machines BS Series", "Consumption", None),
        record("B1ls", "Virtual Machines BS Series", "Reservation", Some("1 Year")),
        record("B1ls", "Virtual Machines BS Series", "Reservation", Some("3 Years")),
    ]
}

#[test]
fn base_sku_and_its_name() {
    let skus = vec!["Standard_E2s_v3".to_string(), "Standard_E2_v3".to_string()];
    assert_eq!(
        flex_base_sku(&skus),
        ("Standard_E2_v3".to_string(), "E2 v3".to_string())
    );
    assert_eq!(
        flex_base_sku(&vec!["Standard_A/B_c".to_string()]),
        ("Standard_A/B_c".to_string(), "A".to_string())
    );
}

#[test]
fn pricing_query_text() {
    assert_eq!(
        pricing_query_command(ARM_REGION_NAME, "Standard_B1ls"),
        "az rest --method get        --url \"https://prices.azure.com/api/retail/prices?$filter=armRegionName eq 'australiaeast' and armSkuName eq 'Standard_B1ls'\"        --output json        "
    );
}

#[test]
fn b1ls_prices_are_found() {
    assert_eq!(price_actions_fault(&b1ls_records(), "Standard_B1ls", "B1ls"), None);
    let actions = choose_price_actions(&b1ls_records(), "Standard_B1ls", "B1ls");
    assert_eq!(
        actions,
        vec![
            PriceAction::SkipWindows,
            PriceAction::SkipWindows,
            PriceAction::SetConsumption,
            PriceAction::SetOneYear,
            PriceAction::SetThreeYears,
        ]
    );
}

#[test]
fn spot_and_other_records() {
    let mut spot = record("B1ls Spot", "Virtual Machines BS Series", "Consumption", None);
    spot.meter_name = "B1ls Spot".to_string();
    assert_eq!(
        price_option_action(&spot, "Standard_B1ls", "B1ls"),
        Ok(PriceAction::SetSpot)
    );
    let mut low = record("B1ls Low Priority", "Virtual Machines BS Series", "Consumption", None);
    low.meter_name = "B1ls Low Priority".to_string();
    assert_eq!(
        price_option_action(&low, "Standard_B1ls", "B1ls"),
        Ok(PriceAction::SkipLowPriority)
    );
    let other = record("B2s", "Virtual Machines BS Series", "Consumption", None);
    assert_eq!(
        price_option_action(&other, "Standard_B1ls", "B1ls"),
        Ok(PriceAction::SkipOtherSize)
    );
    let cloud = record("B1ls", "Cloud Services", "Consumption", None);
    assert_eq!(
        price_option_action(&cloud, "Standard_B1ls", "B1ls"),
        Ok(PriceAction::SkipUnknownProduct)
    );
    let devtest = record("B1ls", "Virtual Machines BS Series", "DevTestConsumption", None);
    assert_eq!(
        price_option_action(&devtest, "Standard_B1ls", "B1ls"),
        Ok(PriceAction::Unmatched)
    );
    let five = record("B1ls", "Virtual Machines BS Series", "Reservation", Some("5 Years"));
    assert_eq!(
        price_option_action(&five, "Standard_B1ls", "B1ls"),
        Ok(PriceAction::Unmatched)
    );
}

#[test]
fn faulty_records() {
    let mut r = record("B1ls", "Virtual Machines BS Series", "Consumption", None);
    r.arm_sku_name = "Standard_B2s".to_string();
    assert_eq!(price_option_action(&r, "Standard_B1ls", "B1ls"), Err(OptionFault::ArmSku));
    let mut r = record("B1ls", "Virtual Machines BS Series", "Consumption", None);
    r.currency_code = "EUR".to_string();
    assert_eq!(price_option_action(&r, "Standard_B1ls", "B1ls"), Err(OptionFault::Currency));
    let mut r = record("B1ls", "Virtual Machines BS Series", "Consumption", None);
    r.unit_of_measure = "1 Day".to_string();
    assert_eq!(price_option_action(&r, "Standard_B1ls", "B1ls"), Err(OptionFault::Unit));
    let mut r = record("B1ls", "Virtual Machines BS Series", "Consumption", None);
    r.meter_name = "A1".to_string();
    assert_eq!(price_option_action(&r, "Standard_B1ls", "B1ls"), Err(OptionFault::Meter));
    let mut r = record("B1ls Spot", "Virtual Machines BS Series", "Consumption", None);
    r.meter_name = "A1 Spot".to_string();
    assert_eq!(price_option_action(&r, "Standard_B1ls", "B1ls"), Err(OptionFault::SpotMeter));
    let mut r = record("B1ls Low Priority", "Virtual Machines BS Series", "Consumption", None);
    r.meter_name = "B1ls Low Priority x".to_string();
    assert_eq!(
        price_option_action(&r, "Standard_B1ls", "B1ls"),
        Err(OptionFault::LowPriorityMeter)
    );
    let r = record("Standard_B1ls", "Virtual Machines BS Series", "Consumption", None);
    assert_eq!(price_option_action(&r, "Standard_B1ls", "Bx"), Err(OptionFault::SizeName));
}

#[test]
fn whole_price_list_errors() {
    assert_eq!(
        price_actions_fault(&vec![], "Standard_B1ls", "B1ls"),
        Some(PricingError::NoPrices)
    );
    let mut records = b1ls_records();
    records.truncate(4);
    assert_eq!(
        price_actions_fault(&records, "Standard_B1ls", "B1ls"),
        Some(PricingError::TooFewPrices { found: 2 })
    );
    let mut spot = record("B1ls Spot", "Virtual Machines BS Series", "Consumption", None);
    spot.meter_name = "B1ls Spot".to_string();
    let mut records = b1ls_records();
    records.push(spot.clone());
    records.push(spot);
    assert_eq!(
        price_actions_fault(&records, "Standard_B1ls", "B1ls"),
        Some(PricingError::SecondSpot { option: 6 })
    );
    let mut records = b1ls_records();
    records[1].currency_code = "EUR".to_string();
    records[3].unit_of_measure = "1 Day".to_string();
    assert_eq!(
        price_actions_fault(&records, "Standard_B1ls", "B1ls"),
        Some(PricingError::BadOption { option: 1, fault: OptionFault::Currency })
    );
}

#[test]
fn windows_records_change_no_price() {
    let base = choose_price_actions(&b1ls_records(), "Standard_B1ls", "B1ls");
    let windows = record("B1ls", "Virtual Machines BS Series Windows", "Reservation", Some("1 Year"));
    for k in 0..=base.len() {
        let mut records = b1ls_records();
        records.insert(k, windows.clone());
        let mut expected = base.clone();
        expected.insert(k, PriceAction::SkipWindows);
        assert_eq!(price_actions_fault(&records, "Standard_B1ls", "B1ls"), None);
        assert_eq!(choose_price_actions(&records, "Standard_B1ls", "B1ls"), expected);
    }
    // without the Windows records the same prices are set
    let plain: Vec<PriceOption> = b1ls_records()
        .into_iter()
        .filter(|r| !r.product_name.ends_with("Windows"))
        .collect();
    assert_eq!(
        choose_price_actions(&plain, "Standard_B1ls", "B1ls"),
        vec![
            PriceAction::SetConsumption,
            PriceAction::SetOneYear,
            PriceAction::SetThreeYears,
        ]
    );
    // a price list of Windows records only sets no price
    let windows_only: Vec<PriceOption> = b1ls_records()
        .into_iter()
        .filter(|r| r.product_name.ends_with("Windows"))
        .collect();
    assert_eq!(
        price_actions_fault(&windows_only, "Standard_B1ls", "B1ls"),
        Some(PricingError::TooFewPrices { found: 0 })
    );
}
