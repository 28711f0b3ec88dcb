use support_portal::initial_data::{
    config_sources, existing_group_id, handle_unique_violation_error, stored_max_activations,
    ConfigSource, ExistingGroup, InitAction, InitOp, InitRun, InitialData, InitialGroup,
    InitialMapper, InitialOAuthClient, ResourceError,
};

fn is_v4(id: u128) -> bool {
    (id >> 76) & 0xf == 4 && (id >> 62) & 0x3 == 2
}

fn file(name: &str) -> ConfigSource {
    ConfigSource::File { name: name.to_string(), required: false }
}

#[test]
fn config_sources_read_the_defaults_first() {
    assert_eq!(
        config_sources(None),
        vec![file("mappers.toml"), file("support-api/mappers.toml"), ConfigSource::Environment]
    );
    assert_eq!(
        config_sources(Some(vec!["extra.toml".to_string(), "more.toml".to_string()])),
        vec![
            file("mappers.toml"),
            file("support-api/mappers.toml"),
            file("extra.toml"),
            file("more.toml"),
            ConfigSource::Environment,
        ]
    );
    assert_eq!(config_sources(Some(vec![])).len(), 3);
    assert_eq!(config_sources(None), config_sources(Some(vec![])));
}

#[test]
fn existing_group_id_takes_the_first_group_of_that_name() {
    let existing = vec![
        ExistingGroup { id: 1, name: "admin".to_string() },
        ExistingGroup { id: 2, name: "support".to_string() },
        ExistingGroup { id: 3, name: "support".to_string() },
    ];
    assert_eq!(existing_group_id(&existing, &"support".to_string()), Some(2));
    assert_eq!(existing_group_id(&existing, &"admin".to_string()), Some(1));
    assert_eq!(existing_group_id(&existing, &"other".to_string()), None);
    assert_eq!(existing_group_id(&vec![], &"admin".to_string()), None);
}

#[test]
fn stored_max_activations_wraps_above_i32_max() {
    assert_eq!(stored_max_activations(None), None);
    assert_eq!(stored_max_activations(Some(5)), Some(5));
    assert_eq!(stored_max_activations(Some(2_147_483_647)), Some(i32::MAX));
    assert_eq!(stored_max_activations(Some(2_147_483_648)), Some(i32::MIN));
    assert_eq!(stored_max_activations(Some(u32::MAX)), Some(-1));
}

#[test]
fn conflicts_are_skipped_and_other_failures_kept() {
    assert!(handle_unique_violation_error::<u8>(ResourceError::Conflict).is_ok());
    assert!(matches!(handle_unique_violation_error(ResourceError::Other(7u8)), Err(ResourceError::Other(7))));
}

#[test]
fn plan_runs_groups_then_mappers_then_clients() {
    let data = InitialData {
        groups: vec![
            InitialGroup { name: "admin".to_string(), permissions: 'a' },
            InitialGroup { name: "new".to_string(), permissions: 'n' },
        ],
        mappers: vec![InitialMapper { name: "m".to_string(), rule: 10u8, max_activations: Some(u32::MAX) }],
        oauth_clients: vec![InitialOAuthClient { id: 77, redirect_uri: "https://r".to_string() }],
    };
    let existing = vec![ExistingGroup { id: 42, name: "admin".to_string() }];
    let ops = data.plan(&existing);
    assert_eq!(ops.len(), 5);
    match &ops[0] {
        InitOp::CreateGroup { id, name, permissions } => {
            assert_eq!(*id, 42);
            assert_eq!(name, "admin");
            assert_eq!(*permissions, 'a');
        }
        _ => panic!("first op creates the first group"),
    }
    match &ops[1] {
        InitOp::CreateGroup { id, name, permissions } => {
            assert!(is_v4(*id));
            assert_eq!(name, "new");
            assert_eq!(*permissions, 'n');
        }
        _ => panic!("second op creates the second group"),
    }
    match &ops[2] {
        InitOp::AddMapper { id, name, rule, activations, max_activations } => {
            assert_eq!(*activations, None);
            assert!(is_v4(*id));
            assert_eq!(name, "m");
            assert_eq!(*rule, 10);
            assert_eq!(*max_activations, Some(-1));
        }
        _ => panic!("third op adds the mapper"),
    }
    assert!(matches!(ops[3], InitOp::CreateOAuthClient { id: 77 }));
    match &ops[4] {
        InitOp::AddOAuthRedirectUri { id, redirect_uri } => {
            assert_eq!(*id, 77);
            assert_eq!(redirect_uri, "https://r");
        }
        _ => panic!("last op adds the redirect uri"),
    }
}

#[test]
fn plan_of_nothing_is_empty() {
    let data: InitialData<u8, u8> = InitialData { groups: vec![], mappers: vec![], oauth_clients: vec![] };
    assert!(data.plan(&vec![]).is_empty());
}

fn client_ops() -> Vec<InitOp<u8, u8>> {
    vec![
        InitOp::CreateOAuthClient { id: 1 },
        InitOp::AddOAuthRedirectUri { id: 1, redirect_uri: "https://a".to_string() },
        InitOp::CreateOAuthClient { id: 2 },
    ]
}

#[test]
fn run_goes_on_past_conflicts_and_ends_done() {
    let mut run = InitRun::new(client_ops());
    assert!(matches!(run.step::<(), &str>(None), InitAction::Run(InitOp::CreateOAuthClient { id: 1 })));
    match run.step::<(), &str>(Some(Err(ResourceError::Conflict))) {
        InitAction::Run(InitOp::AddOAuthRedirectUri { id, redirect_uri }) => {
            assert_eq!(id, 1);
            assert_eq!(redirect_uri, "https://a");
        }
        _ => panic!("a conflict lets the run go on"),
    }
    assert!(matches!(run.step::<(), &str>(Some(Ok(()))), InitAction::Run(InitOp::CreateOAuthClient { id: 2 })));
    assert!(matches!(run.step::<(), &str>(Some(Ok(()))), InitAction::Done));
    assert!(matches!(run.step::<(), &str>(None), InitAction::Done));
}

#[test]
fn run_stops_at_the_first_other_failure() {
    let mut run = InitRun::new(client_ops());
    assert!(matches!(run.step::<(), &str>(None), InitAction::Run(InitOp::CreateOAuthClient { id: 1 })));
    assert!(matches!(
        run.step::<(), &str>(Some(Err(ResourceError::Other("down")))),
        InitAction::Failed("down")
    ));
    assert!(matches!(run.step::<(), &str>(None), InitAction::Done));
}

#[test]
fn run_of_an_empty_plan_is_done_at_once() {
    let mut run: InitRun<u8, u8> = InitRun::new(vec![]);
    assert!(matches!(run.step::<(), u8>(None), InitAction::Done));
}

#[test]
fn next_plan_keeps_the_id_of_a_stored_group() {
    let data = || InitialData::<u8, u8> {
        groups: vec![InitialGroup { name: "new".to_string(), permissions: 1 }],
        mappers: vec![],
        oauth_clients: vec![],
    };
    let first = match &data().plan(&vec![])[0] {
        InitOp::CreateGroup { id, .. } => *id,
        _ => panic!("the plan creates the group"),
    };
    let stored = vec![ExistingGroup { id: first, name: "new".to_string() }];
    match &data().plan(&stored)[0] {
        InitOp::CreateGroup { id, .. } => assert_eq!(*id, first),
        _ => panic!("the plan creates the group"),
    }
}

#[test]
fn next_plan_keeps_the_id_wherever_the_store_lists_the_group() {
    let data = || InitialData::<u8, u8> {
        groups: vec![InitialGroup { name: "new".to_string(), permissions: 1 }],
        mappers: vec![],
        oauth_clients: vec![],
    };
    let before = vec![ExistingGroup { id: 5, name: "old".to_string() }];
    let first = match &data().plan(&before)[0] {
        InitOp::CreateGroup { id, .. } => *id,
        _ => panic!("the plan creates the group"),
    };
    let after = vec![
        ExistingGroup { id: 6, name: "other".to_string() },
        ExistingGroup { id: first, name: "new".to_string() },
        ExistingGroup { id: 5, name: "old".to_string() },
    ];
    match &data().plan(&after)[0] {
        InitOp::CreateGroup { id, .. } => assert_eq!(*id, first),
        _ => panic!("the plan creates the group"),
    }
}

#[test]
fn plan_with_ids_hands_out_the_fresh_ids_in_order() {
    let data = InitialData {
        groups: vec![
            InitialGroup { name: "a".to_string(), permissions: 1u8 },
            InitialGroup { name: "kept".to_string(), permissions: 2u8 },
            InitialGroup { name: "b".to_string(), permissions: 3u8 },
        ],
        mappers: vec![
            InitialMapper { name: "m1".to_string(), rule: 7u8, max_activations: None },
            InitialMapper { name: "m2".to_string(), rule: 8u8, max_activations: Some(3) },
        ],
        oauth_clients: vec![],
    };
    let existing = vec![ExistingGroup { id: 99, name: "kept".to_string() }];
    let ops = data.plan_with_ids(&existing, &vec![10, 11, 12, 13]);
    let ids: Vec<u128> = ops
        .iter()
        .map(|op| match op {
            InitOp::CreateGroup { id, .. } => *id,
            InitOp::AddMapper { id, .. } => *id,
            _ => panic!("only groups and mappers"),
        })
        .collect();
    assert_eq!(ids, vec![10, 99, 11, 12, 13]);
    assert!(matches!(
        ops[4],
        InitOp::AddMapper { activations: None, max_activations: Some(3), .. }
    ));
}

#[test]
fn plan_draws_a_different_id_for_each_new_record() {
    let data = InitialData::<u8, u8> {
        groups: vec![
            InitialGroup { name: "a".to_string(), permissions: 1 },
            InitialGroup { name: "b".to_string(), permissions: 2 },
        ],
        mappers: vec![InitialMapper { name: "m".to_string(), rule: 1, max_activations: None }],
        oauth_clients: vec![],
    };
    let ops = data.plan(&vec![]);
    let ids: Vec<u128> = ops
        .iter()
        .map(|op| match op {
            InitOp::CreateGroup { id, .. } => *id,
            InitOp::AddMapper { id, .. } => *id,
            _ => panic!("only groups and mappers"),
        })
        .collect();
    assert!(ids.iter().all(|id| is_v4(*id)));
    assert_ne!(ids[0], ids[1]);
    assert_ne!(ids[1], ids[2]);
    assert_ne!(ids[0], ids[2]);
}
