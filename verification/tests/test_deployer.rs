use pay_sync::deployer::DeployerContract;

#[test]
fn test_deployer_records_children() {
    let mut deployer = DeployerContract::init(9_000);
    assert_eq!(deployer.get_contract_template(), 9_000);
    assert!(deployer.get_all_child_contracts().is_empty());

    let creator_a: u64 = 10;
    let creator_b: u64 = 20;
    assert_eq!(deployer.deploy_new_pay_sync(creator_a, 101), 101);
    assert_eq!(deployer.deploy_new_pay_sync(creator_b, 102), 102);
    assert_eq!(deployer.deploy_new_pay_sync(creator_a, 103), 103);

    assert_eq!(deployer.get_all_child_contracts(), vec![101, 102, 103]);
    assert_eq!(deployer.get_owner_contracts(creator_a), vec![101, 103]);
    assert_eq!(deployer.get_owner_contracts(creator_b), vec![102]);
    assert!(deployer.get_owner_contracts(30).is_empty());
    assert_eq!(deployer.get_contract_template(), 9_000);
}
