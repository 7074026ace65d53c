use azure_vm_info::az::identity::{Count, SubscriptionPolicies, Subscriptions as ListedSubscriptions};
use azure_vm_info::az::subscriptions::{Subscription, SubscriptionState, Subscriptions};
use azure_vm_info::az::vmlist::{VirtualMachines, VM};
use azure_vm_info::read_csv::parse_flex_csv;
use azure_vm_info::{enrich_fault, enrich_vm_fields, EnrichError};

fn vm(name: &str, size: &str) -> VM {
    VM::new(
        format!("/subscriptions/1/vms/{name}"),
        name.to_string(),
        "australiaeast".to_string(),
        vec!["1".to_string()],
        format!("\"{size}\""),
    )
}

#[test]
fn vm_from_record() {
    let v = vm("web", "Standard_B2ms");
    assert_eq!(v.id, "/subscriptions/1/vms/web");
    assert_eq!(v.vm_id, v.id);
    assert_eq!(v.name, "web");
    assert_eq!(v.vm_size, "Standard_B2ms");
    assert_eq!(v.zones, Some(vec!["1".to_string()]));
    assert!(v.flex_lookup.is_none());
}

#[test]
fn vm_size_loses_its_quotes_only() {
    let v = VM::new("i".to_string(), "n".to_string(), "l".to_string(), vec![], "Standard_A1".to_string());
    assert_eq!(v.vm_size, "Standard_A1");
    assert_eq!(v.zones, Some(vec![]));
    assert_eq!(v.location, "l");
}

fn table() -> Vec<String> {
    [
        "InstanceSizeFlexibilityGroup,ArmSkuName,Ratio",
        "BS Series High Memory,Standard_B2ms,1",
        "BS Series High Memory,Standard_B4ms,2",
        "DSv3 Series,Standard_D2s_v3,1",
        "DSv3 Series,Standard_D4s_v3,2",
        "Lonely,Standard_L8,4",
    ]
    .iter()
    .map(|s| s.to_string())
    .collect()
}

#[test]
fn enrich_gives_each_vm_its_group() {
    let (rows, groups) = parse_flex_csv(&table());
    let mut vms = VirtualMachines(vec![vm("a", "Standard_B4ms"), vm("b", "Standard_D2s_v3")]);
    assert_eq!(enrich_fault(&vms, &rows, &groups), None);
    enrich_vm_fields(&mut vms, &rows, &groups);
    let fa = vms.0[0].flex_lookup.clone().unwrap();
    assert_eq!(fa.flex_group, "BS Series High Memory");
    assert_eq!(fa.flex_sku_name, "Standard_B4ms");
    assert_eq!(fa.flex_ratio, "2");
    assert_eq!(fa.flex_options, vec!["Standard_B2ms".to_string()]);
    let fb = vms.0[1].flex_lookup.clone().unwrap();
    assert_eq!(fb.flex_group, "DSv3 Series");
    assert_eq!(fb.flex_ratio, "1");
    assert_eq!(vms.0[1].name, "b");
}

#[test]
fn enrich_faults_name_the_first_machine() {
    let (rows, groups) = parse_flex_csv(&table());
    let vms = VirtualMachines(vec![vm("a", "Standard_B4ms"), vm("b", "Standard_X1")]);
    assert_eq!(
        enrich_fault(&vms, &rows, &groups),
        Some(EnrichError::UnknownVmSize { vm: 1 })
    );
    let vms = VirtualMachines(vec![vm("c", "Standard_L8")]);
    assert_eq!(
        enrich_fault(&vms, &rows, &groups),
        Some(EnrichError::NoBaseSizes { vm: 0 })
    );
}

#[test]
fn subscriptions_from_records() {
    let s = Subscription::new(
        "123-456".to_string(),
        "Shared".to_string(),
        SubscriptionState::Enabled,
    );
    assert_eq!(s.subscription_id, "123-456");
    assert_eq!(s.display_name, "Shared");
    assert_eq!(s.state, SubscriptionState::Enabled);
    assert_eq!(Subscriptions(vec![s]).len(), 1);
}

#[test]
fn listed_subscriptions_count() {
    let policies = SubscriptionPolicies {
        location_placement_id: "PublicAndAustralia_2014-09-01".to_string(),
        quota_id: "EnterpriseAgreement_2014-09-01".to_string(),
        spending_limit: "Off".to_string(),
    };
    let subs = ListedSubscriptions {
        value: vec![azure_vm_info::az::identity::Subscription {
            id: "/subscriptions/123-456".to_string(),
            authorization_source: "RoleBased".to_string(),
            managed_by_tenants: vec![],
            subscription_id: "123-456".to_string(),
            tenant_id: "001-002-003".to_string(),
            display_name: "TWG Shared 123".to_string(),
            state: "Enabled".to_string(),
            subscription_policies: policies,
        }],
        count: Count::new("Total".to_string(), 1),
    };
    assert_eq!(subs.len(), 1);
    assert_eq!(subs.count, Count::new("Total".to_string(), 1));
    assert_ne!(subs.count, Count::new("Total".to_string(), 18));
}
