use flowstation::registry::{StackState, SubscriberRegistry};

#[test]
fn test_register_deregister() {
    let mut reg = SubscriberRegistry::new();
    assert!(!reg.is_registered(1001));
    reg.register(1001);
    assert!(reg.is_registered(1001));
    reg.deregister(1001);
    assert!(!reg.is_registered(1001));
}

#[test]
fn test_affiliate_deaffiliate() {
    let mut reg = SubscriberRegistry::new();
    reg.register(1001);
    reg.affiliate(1001, 91);
    assert!(reg.has_group_members(91));
    reg.deaffiliate(1001, 91);
    assert!(!reg.has_group_members(91));
}

#[test]
fn test_has_group_members() {
    let mut reg = SubscriberRegistry::new();
    reg.register(1001);
    reg.register(1002);
    reg.register(1003);
    reg.affiliate(1001, 100);
    reg.affiliate(1002, 100);
    reg.affiliate(1003, 100);
    assert!(reg.has_group_members(100));

    // Deaffiliate one, should still have members
    reg.deaffiliate(1001, 100);
    assert!(reg.has_group_members(100));

    // Deregister a user, should still have members
    reg.deregister(1002);
    assert!(reg.has_group_members(100));

    // Deregister last user, should have no members
    reg.deregister(1003);
    assert!(!reg.has_group_members(100));
}

#[test]
fn test_has_group_members_empty() {
    let reg = SubscriberRegistry::new();
    assert!(!reg.has_group_members(999));
}

#[test]
fn test_register_overwrites_existing_subscriber() {
    let mut reg = SubscriberRegistry::new();
    reg.register(1001);
    reg.affiliate(1001, 91);
    assert!(reg.has_group_members(91));

    reg.register(1001);

    assert!(reg.is_registered(1001));
    reg.deaffiliate(1001, 91);
    assert!(!reg.has_group_members(91));
}

#[test]
fn test_all_registered_issis() {
    let mut reg = SubscriberRegistry::new();
    reg.register(1001);
    reg.register(1002);
    reg.register(1003);
    let mut issis: Vec<u32> = reg.all_registered_issis().into_iter().collect();
    issis.sort_unstable();
    assert_eq!(issis, vec![1001, 1002, 1003]);

    reg.deregister(1002);
    let mut issis: Vec<u32> = reg.all_registered_issis().into_iter().collect();
    issis.sort_unstable();
    assert_eq!(issis, vec![1001, 1003]);
}

#[test]
fn register_clears_groups_of_a_re_registered_issi() {
    let mut reg = SubscriberRegistry::new();
    reg.register(7);
    reg.affiliate(7, 10);
    reg.affiliate(7, 11);
    let mut groups = reg.attached_groups_of(7);
    groups.sort_unstable();
    assert_eq!(groups, vec![10, 11]);
    reg.register(7);
    assert!(reg.attached_groups_of(7).is_empty());
    assert!(!reg.has_group_members(10));
    assert!(!reg.has_group_members(11));
}

#[test]
fn affiliate_registers_unknown_issi() {
    let mut reg = SubscriberRegistry::new();
    reg.affiliate(55, 3);
    assert!(reg.is_registered(55));
    assert!(reg.has_group_members(3));
    assert_eq!(reg.attached_groups_of(55), vec![3]);
    assert!(reg.attached_groups_of(56).is_empty());
}

#[test]
fn deaffiliate_of_unknown_issi_registers_it_without_groups() {
    let mut reg = SubscriberRegistry::new();
    reg.deaffiliate(8, 4);
    assert!(reg.is_registered(8));
    assert!(!reg.has_group_members(4));
}

#[test]
fn get_subscriber_mut_inserts_fresh_record() {
    let mut reg = SubscriberRegistry::new();
    {
        let s = reg.get_subscriber_mut(12);
        assert_eq!(s.issi, 12);
        assert!(s.attached_groups.is_empty());
    }
    assert!(reg.is_registered(12));
}

#[test]
fn stack_state_default_is_disconnected_and_empty() {
    let st = StackState::default();
    assert!(!st.network_connected);
    assert_eq!(st.next_live_sds_id, 1);
    assert!(st.active_call_ts.is_empty());
    assert!(st.ee_monitoring_windows.is_empty());
    assert!(st.issi_whitelist_override.is_none());
    assert!(st.subscribers.all_registered_issis().is_empty());
}

#[test]
fn get_subscriber_mut_keeps_registry_consistent() {
    let mut reg = SubscriberRegistry::new();
    reg.register(3);
    reg.affiliate(3, 91);
    {
        let s = reg.get_subscriber_mut(3);
        assert_eq!(s.issi, 3);
        assert!(s.attached_groups.contains(&91));
    }
    assert!(reg.has_group_members(91));
    assert_eq!(reg.attached_groups_of(3), vec![91]);
}
