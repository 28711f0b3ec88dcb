use support_portal::command_tree::{
    build_tree, cmd_path, command_tree, split_path, CliCommand, CommandTree,
};

fn words(path: &str) -> Vec<String> {
    path.split(' ').map(|s| s.to_string()).collect()
}

#[test]
fn cmd_path_gives_the_subcommand_of_each_offered_command() {
    assert_eq!(cmd_path(&CliCommand::CreateApiUser), Some("sys user create"));
    assert_eq!(cmd_path(&CliCommand::GetSelf), Some("self"));
    assert_eq!(cmd_path(&CliCommand::SetApiUserContactEmail), Some("sys user contact email set"));
    assert_eq!(cmd_path(&CliCommand::DeleteMagicLinkSecret), Some("sys mlink secret delete"));
    assert_eq!(cmd_path(&CliCommand::AddApiUserToGroup), Some("sys group membership add"));
}

#[test]
fn cmd_path_leaves_out_login_link_and_unsupported_commands() {
    for cmd in [
        CliCommand::CreateLinkToken,
        CliCommand::LinkProvider,
        CliCommand::ExchangeDeviceToken,
        CliCommand::GetWebPkceProvider,
        CliCommand::GetDeviceProvider,
        CliCommand::MagicLinkSend,
        CliCommand::MagicLinkExchange,
        CliCommand::AuthzCodeRedirect,
        CliCommand::AuthzCodeCallback,
        CliCommand::AuthzCodeExchange,
        CliCommand::OpenidConfiguration,
        CliCommand::JwksJson,
    ] {
        assert_eq!(cmd_path(&cmd), None);
    }
}

#[test]
fn all_commands_are_listed_once() {
    let all = CliCommand::all();
    assert_eq!(all.len(), 46);
    for i in 0..all.len() {
        for j in 0..i {
            assert_ne!(all[i], all[j]);
        }
    }
    assert_eq!(all.iter().filter(|c| cmd_path(c).is_some()).count(), 34);
}

#[test]
fn split_path_splits_at_each_space() {
    assert_eq!(split_path("sys user token create"), vec!["sys", "user", "token", "create"]);
    assert_eq!(split_path("self"), vec!["self"]);
    assert_eq!(split_path(""), vec![""]);
    assert_eq!(split_path("a  b "), vec!["a", "", "b", ""]);
}

#[test]
fn split_path_then_join_gives_the_path_back() {
    for path in ["sys group membership remove", " lead", "x", "", "  "] {
        assert_eq!(split_path(path).join(" "), path);
    }
}

#[test]
fn command_tree_holds_every_command_at_its_path() {
    let tree = command_tree().expect("no two commands share a path");
    for cmd in CliCommand::all() {
        if let Some(path) = cmd_path(&cmd) {
            assert_eq!(tree.command_at(&words(path)), Some(cmd));
        }
    }
}

#[test]
fn command_tree_has_inner_nodes_without_commands() {
    let tree = command_tree().unwrap();
    assert!(tree.contains_path(&vec![]));
    assert!(tree.contains_path(&words("sys user token")));
    assert_eq!(tree.command_at(&words("sys user token")), None);
    assert_eq!(tree.command_at(&words("sys")), None);
    assert!(!tree.contains_path(&words("sys widget")));
    assert_eq!(tree.command_at(&words("sys widget")), None);
}

#[test]
fn command_tree_children() {
    let tree = command_tree().unwrap();
    let mut top = tree.child_names(&vec![]);
    top.sort();
    assert_eq!(top, vec!["self", "sys"]);
    let mut sys = tree.child_names(&words("sys"));
    sys.sort();
    assert_eq!(sys, vec!["group", "mapper", "mlink", "oauth", "user"]);
    let mut token = tree.child_names(&words("sys user token"));
    token.sort();
    assert_eq!(token, vec!["create", "delete", "get", "list"]);
    assert!(tree.child_names(&words("self")).is_empty());
}

#[test]
fn insert_then_lookup_gives_the_command_back() {
    let mut tree = CommandTree::new();
    assert_eq!(tree.insert(words("a b"), CliCommand::GetSelf), Ok(()));
    assert_eq!(tree.command_at(&words("a b")), Some(CliCommand::GetSelf));
    assert_eq!(tree.command_at(&words("a")), None);
    assert!(tree.contains_path(&words("a")));
}

#[test]
fn insert_refuses_a_path_that_is_a_node_already() {
    let mut tree = CommandTree::new();
    tree.insert(words("a b"), CliCommand::GetSelf).unwrap();
    assert_eq!(tree.insert(words("a"), CliCommand::GetGroups), Err(CliCommand::GetGroups));
    assert_eq!(tree.insert(words("a b"), CliCommand::GetMappers), Err(CliCommand::GetMappers));
    assert_eq!(tree.insert(vec![], CliCommand::JwksJson), Err(CliCommand::JwksJson));
    assert_eq!(tree.command_at(&words("a b")), Some(CliCommand::GetSelf));
    assert_eq!(tree.command_at(&words("a")), None);
}

#[test]
fn insert_may_go_through_a_leaf() {
    let mut tree = CommandTree::new();
    tree.insert(words("a"), CliCommand::GetSelf).unwrap();
    tree.insert(words("a b c"), CliCommand::GetGroups).unwrap();
    assert_eq!(tree.command_at(&words("a")), Some(CliCommand::GetSelf));
    assert_eq!(tree.command_at(&words("a b")), None);
    assert_eq!(tree.command_at(&words("a b c")), Some(CliCommand::GetGroups));
}

#[test]
fn build_tree_names_the_first_entry_that_does_not_fit() {
    let entries = vec![
        (words("x y"), CliCommand::GetSelf),
        (words("z"), CliCommand::GetGroups),
        (words("x"), CliCommand::GetMappers),
        (words("z"), CliCommand::CreateGroup),
    ];
    assert_eq!(build_tree(&entries).err(), Some(CliCommand::GetMappers));
    let fine = vec![(words("x"), CliCommand::GetSelf), (words("x y"), CliCommand::GetGroups)];
    let tree = build_tree(&fine).unwrap();
    assert_eq!(tree.command_at(&words("x")), Some(CliCommand::GetSelf));
    assert_eq!(tree.command_at(&words("x y")), Some(CliCommand::GetGroups));
}

#[test]
fn no_command_path_begins_another() {
    let paths: Vec<Vec<String>> = CliCommand::all().iter().filter_map(cmd_path).map(words).collect();
    assert_eq!(paths.len(), 34);
    for (i, p) in paths.iter().enumerate() {
        for (j, q) in paths.iter().enumerate() {
            if i != j {
                assert!(!(p.len() <= q.len() && q[..p.len()] == p[..]), "{:?} begins {:?}", p, q);
            }
        }
    }
}
