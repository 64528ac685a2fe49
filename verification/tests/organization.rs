use icn_economics::organization::OrganizationType;

#[test]
fn organization_weights_in_hundredths() {
    assert_eq!(OrganizationType::Cooperative.weight_percent(), 100);
    assert_eq!(OrganizationType::Community.weight_percent(), 95);
    assert_eq!(OrganizationType::Federation.weight_percent(), 125);
    assert_eq!(OrganizationType::DefaultIcnFederation.weight_percent(), 110);
    assert_eq!(OrganizationType::Unaffiliated.weight_percent(), 70);
}

#[test]
fn mana_test_organization_weights() {
    let weight = |t: OrganizationType| t.weight_percent() as f64 / 100.0;
    assert_eq!(weight(OrganizationType::Cooperative), 1.00);
    assert_eq!(weight(OrganizationType::Community), 0.95);
    assert_eq!(weight(OrganizationType::Federation), 1.25);
    assert_eq!(weight(OrganizationType::DefaultIcnFederation), 1.10);
    assert_eq!(weight(OrganizationType::Unaffiliated), 0.70);
}
