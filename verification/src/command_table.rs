//! The words of the CLI's command paths, and the proofs that the command
//! tree is built from the command table without refusal, holds every command
//! at the words of its path, and that no command's path begins another's.

use vstd::prelude::*;
use vstd::string::*;

use crate::command_tree::{
    apart, built, command_table, entries_fit, entry_fits, is_prefix, join_spaces,
    lemma_built_reads_back, lemma_join_split, lemma_split_spaces_nonempty, no_space,
    spec_all_commands, spec_cmd_path, split_spaces, CliCommand,
};

verus! {

/// The words of the command paths, each under its number.
pub open spec fn word(n: int) -> Seq<char> {
    if n == 0 {
        "sys"@
    } else if n == 1 {
        "user"@
    } else if n == 2 {
        "create"@
    } else if n == 3 {
        "token"@
    } else if n == 4 {
        "delete"@
    } else if n == 5 {
        "get"@
    } else if n == 6 {
        "list"@
    } else if n == 7 {
        "update"@
    } else if n == 8 {
        "self"@
    } else if n == 9 {
        "contact"@
    } else if n == 10 {
        "email"@
    } else if n == 11 {
        "set"@
    } else if n == 12 {
        "group"@
    } else if n == 13 {
        "membership"@
    } else if n == 14 {
        "add"@
    } else if n == 15 {
        "remove"@
    } else if n == 16 {
        "mapper"@
    } else if n == 17 {
        "oauth"@
    } else if n == 18 {
        "redirect"@
    } else if n == 19 {
        "secret"@
    } else if n == 20 {
        "mlink"@
    } else {
        Seq::empty()
    }
}

/// The number of different words in the command paths.
pub open spec fn word_count() -> int {
    21
}

/// The numbers of the words of a command's path, where it has one.
pub open spec fn path_ids(c: CliCommand) -> Option<Seq<int>> {
    match c {
        CliCommand::CreateApiUser => Some(seq![0, 1, 2]),
        CliCommand::CreateApiUserToken => Some(seq![0, 1, 3, 2]),
        CliCommand::DeleteApiUserToken => Some(seq![0, 1, 3, 4]),
        CliCommand::GetApiUser => Some(seq![0, 1, 5]),
        CliCommand::ListApiUsers => Some(seq![0, 1, 6]),
        CliCommand::GetApiUserToken => Some(seq![0, 1, 3, 5]),
        CliCommand::ListApiUserTokens => Some(seq![0, 1, 3, 6]),
        CliCommand::UpdateApiUser => Some(seq![0, 1, 7]),
        CliCommand::GetSelf => Some(seq![8]),
        CliCommand::SetApiUserContactEmail => Some(seq![0, 1, 9, 10, 11]),
        CliCommand::CreateLinkToken => None,
        CliCommand::LinkProvider => None,
        CliCommand::GetGroups => Some(seq![0, 12, 6]),
        CliCommand::CreateGroup => Some(seq![0, 12, 2]),
        CliCommand::UpdateGroup => Some(seq![0, 12, 7]),
        CliCommand::DeleteGroup => Some(seq![0, 12, 4]),
        CliCommand::GetGroupMembers => Some(seq![0, 12, 13, 6]),
        CliCommand::AddApiUserToGroup => Some(seq![0, 12, 13, 14]),
        CliCommand::RemoveApiUserFromGroup => Some(seq![0, 12, 13, 15]),
        CliCommand::GetMappers => Some(seq![0, 16, 6]),
        CliCommand::CreateMapper => Some(seq![0, 16, 2]),
        CliCommand::DeleteMapper => Some(seq![0, 16, 4]),
        CliCommand::ListOauthClients => Some(seq![0, 17, 6]),
        CliCommand::CreateOauthClient => Some(seq![0, 17, 2]),
        CliCommand::GetOauthClient => Some(seq![0, 17, 5]),
        CliCommand::CreateOauthClientRedirectUri => Some(seq![0, 17, 18, 2]),
        CliCommand::DeleteOauthClientRedirectUri => Some(seq![0, 17, 18, 4]),
        CliCommand::CreateOauthClientSecret => Some(seq![0, 17, 19, 2]),
        CliCommand::DeleteOauthClientSecret => Some(seq![0, 17, 19, 4]),
        CliCommand::ListMagicLinks => Some(seq![0, 20, 6]),
        CliCommand::CreateMagicLink => Some(seq![0, 20, 2]),
        CliCommand::GetMagicLink => Some(seq![0, 20, 5]),
        CliCommand::CreateMagicLinkRedirectUri => Some(seq![0, 20, 18, 2]),
        CliCommand::DeleteMagicLinkRedirectUri => Some(seq![0, 20, 18, 4]),
        CliCommand::CreateMagicLinkSecret => Some(seq![0, 20, 19, 2]),
        CliCommand::DeleteMagicLinkSecret => Some(seq![0, 20, 19, 4]),
        CliCommand::ExchangeDeviceToken => None,
        CliCommand::GetWebPkceProvider => None,
        CliCommand::GetDeviceProvider => None,
        CliCommand::MagicLinkSend => None,
        CliCommand::MagicLinkExchange => None,
        CliCommand::AuthzCodeRedirect => None,
        CliCommand::AuthzCodeCallback => None,
        CliCommand::AuthzCodeExchange => None,
        CliCommand::OpenidConfiguration => None,
        CliCommand::JwksJson => None,
    }
}

/// The words whose numbers are `ids`.
pub open spec fn words_of(ids: Seq<int>) -> Seq<Seq<char>> {
    ids.map_values(|n: int| word(n))
}

/// The place of each command in `spec_all_commands`.
pub open spec fn command_position(c: CliCommand) -> int {
    match c {
        CliCommand::CreateApiUser => 0,
        CliCommand::CreateApiUserToken => 1,
        CliCommand::DeleteApiUserToken => 2,
        CliCommand::GetApiUser => 3,
        CliCommand::ListApiUsers => 4,
        CliCommand::GetApiUserToken => 5,
        CliCommand::ListApiUserTokens => 6,
        CliCommand::UpdateApiUser => 7,
        CliCommand::GetSelf => 8,
        CliCommand::SetApiUserContactEmail => 9,
        CliCommand::CreateLinkToken => 10,
        CliCommand::LinkProvider => 11,
        CliCommand::GetGroups => 12,
        CliCommand::CreateGroup => 13,
        CliCommand::UpdateGroup => 14,
        CliCommand::DeleteGroup => 15,
        CliCommand::GetGroupMembers => 16,
        CliCommand::AddApiUserToGroup => 17,
        CliCommand::RemoveApiUserFromGroup => 18,
        CliCommand::GetMappers => 19,
        CliCommand::CreateMapper => 20,
        CliCommand::DeleteMapper => 21,
        CliCommand::ListOauthClients => 22,
        CliCommand::CreateOauthClient => 23,
        CliCommand::GetOauthClient => 24,
        CliCommand::CreateOauthClientRedirectUri => 25,
        CliCommand::DeleteOauthClientRedirectUri => 26,
        CliCommand::CreateOauthClientSecret => 27,
        CliCommand::DeleteOauthClientSecret => 28,
        CliCommand::ListMagicLinks => 29,
        CliCommand::CreateMagicLink => 30,
        CliCommand::GetMagicLink => 31,
        CliCommand::CreateMagicLinkRedirectUri => 32,
        CliCommand::DeleteMagicLinkRedirectUri => 33,
        CliCommand::CreateMagicLinkSecret => 34,
        CliCommand::DeleteMagicLinkSecret => 35,
        CliCommand::ExchangeDeviceToken => 36,
        CliCommand::GetWebPkceProvider => 37,
        CliCommand::GetDeviceProvider => 38,
        CliCommand::MagicLinkSend => 39,
        CliCommand::MagicLinkExchange => 40,
        CliCommand::AuthzCodeRedirect => 41,
        CliCommand::AuthzCodeCallback => 42,
        CliCommand::AuthzCodeExchange => 43,
        CliCommand::OpenidConfiguration => 44,
        CliCommand::JwksJson => 45,
    }
}

/// Different numbers stand for different words, and no word is empty or holds
/// a space.
proof fn lemma_words()
    ensures
        forall|a: int, b: int|
            0 <= a < word_count() && 0 <= b < word_count() && a != b ==> #[trigger] word(a)
                != #[trigger] word(b),
        forall|n: int| 0 <= n < word_count() ==> #[trigger] word(n).len() > 0 && no_space(word(n)),
{
    reveal_strlit("sys");
    reveal_strlit("user");
    reveal_strlit("create");
    reveal_strlit("token");
    reveal_strlit("delete");
    reveal_strlit("get");
    reveal_strlit("list");
    reveal_strlit("update");
    reveal_strlit("self");
    reveal_strlit("contact");
    reveal_strlit("email");
    reveal_strlit("set");
    reveal_strlit("group");
    reveal_strlit("membership");
    reveal_strlit("add");
    reveal_strlit("remove");
    reveal_strlit("mapper");
    reveal_strlit("oauth");
    reveal_strlit("redirect");
    reveal_strlit("secret");
    reveal_strlit("mlink");
    assert forall|a: int, b: int|
        0 <= a < word_count() && 0 <= b < word_count() && a != b implies word(a).len() != word(
        b,
    ).len() || word(a)[0] != word(b)[0] || word(a)[1] != word(b)[1] by {}
    assert forall|n: int, m: int| 0 <= n < word_count() && 0 <= m < word(n).len() implies #[trigger] word(
        n,
    )[m] != ' ' by {}
}

/// Every command stands at its place in `spec_all_commands`, and no command
/// stands there twice.
proof fn lemma_all_commands()
    ensures
        spec_all_commands().no_duplicates(),
        forall|c: CliCommand|
            0 <= #[trigger] command_position(c) < spec_all_commands().len()
                && spec_all_commands()[command_position(c)] == c,
{
    let all = spec_all_commands();
    assert(all.len() == 46);
    assert forall|i: int, j: int| 0 <= i < 46 && 0 <= j < 46 && i != j implies all[i] != all[j] by {}
}

/// The path of each command that has one is its words joined by single
/// spaces.
proof fn lemma_path_join(c: CliCommand)
    requires
        spec_cmd_path(c) is Some,
    ensures
        path_ids(c) is Some,
        spec_cmd_path(c)->0 == join_spaces(words_of(path_ids(c)->0)),
{
    reveal_strlit("sys");
    reveal_strlit("user");
    reveal_strlit("create");
    reveal_strlit("token");
    reveal_strlit("delete");
    reveal_strlit("get");
    reveal_strlit("list");
    reveal_strlit("update");
    reveal_strlit("self");
    reveal_strlit("contact");
    reveal_strlit("email");
    reveal_strlit("set");
    reveal_strlit("group");
    reveal_strlit("membership");
    reveal_strlit("add");
    reveal_strlit("remove");
    reveal_strlit("mapper");
    reveal_strlit("oauth");
    reveal_strlit("redirect");
    reveal_strlit("secret");
    reveal_strlit("mlink");
    match c {
        CliCommand::CreateApiUser => reveal_strlit("sys user create"),
        CliCommand::CreateApiUserToken => reveal_strlit("sys user token create"),
        CliCommand::DeleteApiUserToken => reveal_strlit("sys user token delete"),
        CliCommand::GetApiUser => reveal_strlit("sys user get"),
        CliCommand::ListApiUsers => reveal_strlit("sys user list"),
        CliCommand::GetApiUserToken => reveal_strlit("sys user token get"),
        CliCommand::ListApiUserTokens => reveal_strlit("sys user token list"),
        CliCommand::UpdateApiUser => reveal_strlit("sys user update"),
        CliCommand::GetSelf => reveal_strlit("self"),
        CliCommand::SetApiUserContactEmail => reveal_strlit("sys user contact email set"),
        CliCommand::CreateLinkToken => {},
        CliCommand::LinkProvider => {},
        CliCommand::GetGroups => reveal_strlit("sys group list"),
        CliCommand::CreateGroup => reveal_strlit("sys group create"),
        CliCommand::UpdateGroup => reveal_strlit("sys group update"),
        CliCommand::DeleteGroup => reveal_strlit("sys group delete"),
        CliCommand::GetGroupMembers => reveal_strlit("sys group membership list"),
        CliCommand::AddApiUserToGroup => reveal_strlit("sys group membership add"),
        CliCommand::RemoveApiUserFromGroup => reveal_strlit("sys group membership remove"),
        CliCommand::GetMappers => reveal_strlit("sys mapper list"),
        CliCommand::CreateMapper => reveal_strlit("sys mapper create"),
        CliCommand::DeleteMapper => reveal_strlit("sys mapper delete"),
        CliCommand::ListOauthClients => reveal_strlit("sys oauth list"),
        CliCommand::CreateOauthClient => reveal_strlit("sys oauth create"),
        CliCommand::GetOauthClient => reveal_strlit("sys oauth get"),
        CliCommand::CreateOauthClientRedirectUri => reveal_strlit("sys oauth redirect create"),
        CliCommand::DeleteOauthClientRedirectUri => reveal_strlit("sys oauth redirect delete"),
        CliCommand::CreateOauthClientSecret => reveal_strlit("sys oauth secret create"),
        CliCommand::DeleteOauthClientSecret => reveal_strlit("sys oauth secret delete"),
        CliCommand::ListMagicLinks => reveal_strlit("sys mlink list"),
        CliCommand::CreateMagicLink => reveal_strlit("sys mlink create"),
        CliCommand::GetMagicLink => reveal_strlit("sys mlink get"),
        CliCommand::CreateMagicLinkRedirectUri => reveal_strlit("sys mlink redirect create"),
        CliCommand::DeleteMagicLinkRedirectUri => reveal_strlit("sys mlink redirect delete"),
        CliCommand::CreateMagicLinkSecret => reveal_strlit("sys mlink secret create"),
        CliCommand::DeleteMagicLinkSecret => reveal_strlit("sys mlink secret delete"),
        CliCommand::ExchangeDeviceToken => {},
        CliCommand::GetWebPkceProvider => {},
        CliCommand::GetDeviceProvider => {},
        CliCommand::MagicLinkSend => {},
        CliCommand::MagicLinkExchange => {},
        CliCommand::AuthzCodeRedirect => {},
        CliCommand::AuthzCodeCallback => {},
        CliCommand::AuthzCodeExchange => {},
        CliCommand::OpenidConfiguration => {},
        CliCommand::JwksJson => {},
    }
    reveal_with_fuel(join_spaces, 6);
    assert(spec_cmd_path(c)->0 =~= join_spaces(words_of(path_ids(c)->0)));
}

/// The numbers of the words of each path are numbers of words, and every
/// path has at least one word.
proof fn lemma_path_ids_valid(c: CliCommand)
    requires
        path_ids(c) is Some,
    ensures
        path_ids(c)->0.len() >= 1,
        forall|k: int|
            0 <= k < path_ids(c)->0.len() ==> 0 <= #[trigger] path_ids(c)->0[k] < word_count(),
{
}

/// Splitting the path of a command gives the words of its path.
proof fn lemma_path_words(c: CliCommand)
    requires
        spec_cmd_path(c) is Some,
    ensures
        path_ids(c) is Some,
        split_spaces(spec_cmd_path(c)->0) == words_of(path_ids(c)->0),
{
    lemma_path_join(c);
    lemma_path_ids_valid(c);
    lemma_words();
    let w = words_of(path_ids(c)->0);
    assert forall|k: int| 0 <= k < w.len() implies no_space(#[trigger] w[k]) by {
        assert(w[k] == word(path_ids(c)->0[k]));
    }
    lemma_join_split(w);
}

/// `p` and `q` differ at some place from `k` on that both reach.
pub open spec fn differ_from(p: Seq<int>, q: Seq<int>, k: int) -> bool
    decreases p.len() - k,
{
    if 0 <= k < p.len() && k < q.len() {
        p[k] != q[k] || differ_from(p, q, k + 1)
    } else {
        false
    }
}

/// A place where `p` and `q` differ, from `k` on.
proof fn lemma_differ_witness(p: Seq<int>, q: Seq<int>, k: int) -> (m: int)
    requires
        differ_from(p, q, k),
    ensures
        k <= m < p.len(),
        m < q.len(),
        p[m] != q[m],
    decreases p.len() - k,
{
    if p[k] != q[k] {
        k
    } else {
        lemma_differ_witness(p, q, k + 1)
    }
}

/// The word numbers of the paths of two different commands differ at some
/// place that both reach.
proof fn lemma_ids_differ()
    ensures
        forall|c1: CliCommand, c2: CliCommand|
            #[trigger] path_ids(c1) is Some && #[trigger] path_ids(c2) is Some && c1 != c2
                ==> differ_from(path_ids(c1)->0, path_ids(c2)->0, 0),
{
    reveal_with_fuel(differ_from, 6);
}

/// What a command does to its record, as the word the CLI ends its path
/// with: `get` shows one record, `list` lists them, `create`, `update`,
/// `delete`, `add`, `remove` and `set` change them, and `self` shows the
/// caller's own user. `None` for the commands the CLI does not offer under
/// a path.
pub open spec fn command_action(c: CliCommand) -> Option<Seq<char>> {
    match c {
        CliCommand::CreateApiUser => Some("create"@),
        CliCommand::CreateApiUserToken => Some("create"@),
        CliCommand::DeleteApiUserToken => Some("delete"@),
        CliCommand::GetApiUser => Some("get"@),
        CliCommand::ListApiUsers => Some("list"@),
        CliCommand::GetApiUserToken => Some("get"@),
        CliCommand::ListApiUserTokens => Some("list"@),
        CliCommand::UpdateApiUser => Some("update"@),
        CliCommand::GetSelf => Some("self"@),
        CliCommand::SetApiUserContactEmail => Some("set"@),
        CliCommand::CreateLinkToken => None,
        CliCommand::LinkProvider => None,
        CliCommand::GetGroups => Some("list"@),
        CliCommand::CreateGroup => Some("create"@),
        CliCommand::UpdateGroup => Some("update"@),
        CliCommand::DeleteGroup => Some("delete"@),
        CliCommand::GetGroupMembers => Some("list"@),
        CliCommand::AddApiUserToGroup => Some("add"@),
        CliCommand::RemoveApiUserFromGroup => Some("remove"@),
        CliCommand::GetMappers => Some("list"@),
        CliCommand::CreateMapper => Some("create"@),
        CliCommand::DeleteMapper => Some("delete"@),
        CliCommand::ListOauthClients => Some("list"@),
        CliCommand::CreateOauthClient => Some("create"@),
        CliCommand::GetOauthClient => Some("get"@),
        CliCommand::CreateOauthClientRedirectUri => Some("create"@),
        CliCommand::DeleteOauthClientRedirectUri => Some("delete"@),
        CliCommand::CreateOauthClientSecret => Some("create"@),
        CliCommand::DeleteOauthClientSecret => Some("delete"@),
        CliCommand::ListMagicLinks => Some("list"@),
        CliCommand::CreateMagicLink => Some("create"@),
        CliCommand::GetMagicLink => Some("get"@),
        CliCommand::CreateMagicLinkRedirectUri => Some("create"@),
        CliCommand::DeleteMagicLinkRedirectUri => Some("delete"@),
        CliCommand::CreateMagicLinkSecret => Some("create"@),
        CliCommand::DeleteMagicLinkSecret => Some("delete"@),
        CliCommand::ExchangeDeviceToken => None,
        CliCommand::GetWebPkceProvider => None,
        CliCommand::GetDeviceProvider => None,
        CliCommand::MagicLinkSend => None,
        CliCommand::MagicLinkExchange => None,
        CliCommand::AuthzCodeRedirect => None,
        CliCommand::AuthzCodeCallback => None,
        CliCommand::AuthzCodeExchange => None,
        CliCommand::OpenidConfiguration => None,
        CliCommand::JwksJson => None,
    }
}

/// The kind of record a command acts on, as the words the CLI puts before
/// the action: `sys` and the record's name (and, for a part of a record,
/// the part's name); nothing for the caller's own user.
pub open spec fn command_resource(c: CliCommand) -> Seq<Seq<char>> {
    match c {
        CliCommand::CreateApiUser => seq!["sys"@, "user"@],
        CliCommand::CreateApiUserToken => seq!["sys"@, "user"@, "token"@],
        CliCommand::DeleteApiUserToken => seq!["sys"@, "user"@, "token"@],
        CliCommand::GetApiUser => seq!["sys"@, "user"@],
        CliCommand::ListApiUsers => seq!["sys"@, "user"@],
        CliCommand::GetApiUserToken => seq!["sys"@, "user"@, "token"@],
        CliCommand::ListApiUserTokens => seq!["sys"@, "user"@, "token"@],
        CliCommand::UpdateApiUser => seq!["sys"@, "user"@],
        CliCommand::GetSelf => Seq::empty(),
        CliCommand::SetApiUserContactEmail => seq!["sys"@, "user"@, "contact"@, "email"@],
        CliCommand::CreateLinkToken => Seq::empty(),
        CliCommand::LinkProvider => Seq::empty(),
        CliCommand::GetGroups => seq!["sys"@, "group"@],
        CliCommand::CreateGroup => seq!["sys"@, "group"@],
        CliCommand::UpdateGroup => seq!["sys"@, "group"@],
        CliCommand::DeleteGroup => seq!["sys"@, "group"@],
        CliCommand::GetGroupMembers => seq!["sys"@, "group"@, "membership"@],
        CliCommand::AddApiUserToGroup => seq!["sys"@, "group"@, "membership"@],
        CliCommand::RemoveApiUserFromGroup => seq!["sys"@, "group"@, "membership"@],
        CliCommand::GetMappers => seq!["sys"@, "mapper"@],
        CliCommand::CreateMapper => seq!["sys"@, "mapper"@],
        CliCommand::DeleteMapper => seq!["sys"@, "mapper"@],
        CliCommand::ListOauthClients => seq!["sys"@, "oauth"@],
        CliCommand::CreateOauthClient => seq!["sys"@, "oauth"@],
        CliCommand::GetOauthClient => seq!["sys"@, "oauth"@],
        CliCommand::CreateOauthClientRedirectUri => seq!["sys"@, "oauth"@, "redirect"@],
        CliCommand::DeleteOauthClientRedirectUri => seq!["sys"@, "oauth"@, "redirect"@],
        CliCommand::CreateOauthClientSecret => seq!["sys"@, "oauth"@, "secret"@],
        CliCommand::DeleteOauthClientSecret => seq!["sys"@, "oauth"@, "secret"@],
        CliCommand::ListMagicLinks => seq!["sys"@, "mlink"@],
        CliCommand::CreateMagicLink => seq!["sys"@, "mlink"@],
        CliCommand::GetMagicLink => seq!["sys"@, "mlink"@],
        CliCommand::CreateMagicLinkRedirectUri => seq!["sys"@, "mlink"@, "redirect"@],
        CliCommand::DeleteMagicLinkRedirectUri => seq!["sys"@, "mlink"@, "redirect"@],
        CliCommand::CreateMagicLinkSecret => seq!["sys"@, "mlink"@, "secret"@],
        CliCommand::DeleteMagicLinkSecret => seq!["sys"@, "mlink"@, "secret"@],
        CliCommand::ExchangeDeviceToken => Seq::empty(),
        CliCommand::GetWebPkceProvider => Seq::empty(),
        CliCommand::GetDeviceProvider => Seq::empty(),
        CliCommand::MagicLinkSend => Seq::empty(),
        CliCommand::MagicLinkExchange => Seq::empty(),
        CliCommand::AuthzCodeRedirect => Seq::empty(),
        CliCommand::AuthzCodeCallback => Seq::empty(),
        CliCommand::AuthzCodeExchange => Seq::empty(),
        CliCommand::OpenidConfiguration => Seq::empty(),
        CliCommand::JwksJson => Seq::empty(),
    }
}

/// Law of the command paths: the CLI offers exactly the commands that have
/// an action, and the path of each is the words of the record it acts on
/// followed by its action, so `sys user get` shows one user and `sys user
/// list` lists them.
pub proof fn lemma_cmd_path_names_command(c: CliCommand)
    ensures
        spec_cmd_path(c) is Some <==> command_action(c) is Some,
        spec_cmd_path(c) is Some ==> split_spaces(spec_cmd_path(c)->0) == command_resource(c).push(
            command_action(c)->0,
        ),
{
    if spec_cmd_path(c) is Some {
        lemma_path_words(c);
        assert(words_of(path_ids(c)->0) =~= command_resource(c).push(command_action(c)->0));
    }
}

/// Law of the command paths: for two different commands that both have a
/// path, the words of the one never begin the words of the other, so no
/// command of the CLI's tree stands at a node that leads on to another.
pub proof fn lemma_cmd_paths_prefix_free(c1: CliCommand, c2: CliCommand)
    requires
        c1 != c2,
        spec_cmd_path(c1) is Some,
        spec_cmd_path(c2) is Some,
    ensures
        !is_prefix(split_spaces(spec_cmd_path(c1)->0), split_spaces(spec_cmd_path(c2)->0)),
{
    lemma_path_words(c1);
    lemma_path_words(c2);
    lemma_path_ids_valid(c1);
    lemma_path_ids_valid(c2);
    lemma_ids_differ();
    lemma_words();
    let p = path_ids(c1)->0;
    let q = path_ids(c2)->0;
    let m = lemma_differ_witness(p, q, 0);
    assert(words_of(p)[m] != words_of(q)[m]);
    assert(apart(words_of(p), words_of(q)));
}

/// The entries of the command table of `cmds`: each is a command of `cmds`
/// that has a path, with the words of its path; where `cmds` holds no command
/// twice, neither does the table; and every command of `cmds` that has a path
/// has an entry.
proof fn lemma_table_entries(cmds: Seq<CliCommand>)
    ensures
        forall|i: int|
            0 <= i < command_table(cmds).len() ==> spec_cmd_path(
                (#[trigger] command_table(cmds)[i]).1,
            ) is Some && command_table(cmds)[i].0 == split_spaces(
                spec_cmd_path(command_table(cmds)[i].1)->0,
            ) && cmds.contains(command_table(cmds)[i].1),
        cmds.no_duplicates() ==> forall|i: int, j: int|
            0 <= i < j < command_table(cmds).len() ==> (#[trigger] command_table(cmds)[i]).1
                != (#[trigger] command_table(cmds)[j]).1,
        forall|k: int|
            0 <= k < cmds.len() && spec_cmd_path(#[trigger] cmds[k]) is Some ==> exists|i: int|
                0 <= i < command_table(cmds).len() && (#[trigger] command_table(cmds)[i]).1
                    == cmds[k],
    decreases cmds.len(),
{
    if cmds.len() > 0 {
        let init = cmds.drop_last();
        lemma_table_entries(init);
        let t0 = command_table(init);
        let t = command_table(cmds);
        assert forall|i: int| 0 <= i < t.len() implies spec_cmd_path((#[trigger] t[i]).1) is Some
            && t[i].0 == split_spaces(spec_cmd_path(t[i].1)->0) && cmds.contains(t[i].1) by {
            if i < t0.len() {
                assert(t[i] == t0[i]);
                let k = choose|k: int| 0 <= k < init.len() && init[k] == t0[i].1;
                assert(cmds[k] == init[k]);
            } else {
                assert(cmds[cmds.len() - 1] == cmds.last());
            }
        }
        if cmds.no_duplicates() {
            assert forall|i: int, j: int| 0 <= i < j < init.len() implies init[i] != init[j] by {
                assert(init[i] == cmds[i] && init[j] == cmds[j]);
            }
            assert forall|i: int, j: int| 0 <= i < j < t.len() implies (#[trigger] t[i]).1
                != (#[trigger] t[j]).1 by {
                assert(t[i] == t0[i]);
                if j >= t0.len() {
                    let k = choose|k: int| 0 <= k < init.len() && init[k] == t0[i].1;
                    assert(cmds[k] == init[k]);
                    assert(cmds[cmds.len() - 1] == cmds.last());
                } else {
                    assert(t[j] == t0[j]);
                }
            }
        }
        assert forall|k: int| 0 <= k < cmds.len() && spec_cmd_path(#[trigger] cmds[k]) is Some implies exists|i: int|
            0 <= i < t.len() && (#[trigger] t[i]).1 == cmds[k] by {
            if k < init.len() {
                assert(init[k] == cmds[k]);
                let i = choose|i: int| 0 <= i < t0.len() && (#[trigger] t0[i]).1 == init[k];
                assert(t[i] == t0[i]);
            } else {
                assert(t[t0.len() as int].1 == cmds.last());
            }
        }
    }
}

/// Law of the CLI's command tree: it is built from the command table without
/// refusal (no command's path is taken by an earlier one), and it holds every
/// command that has a path at the words of that path.
pub proof fn lemma_command_tree_complete()
    ensures
        entries_fit(command_table(spec_all_commands())),
        forall|c: CliCommand|
            #[trigger] spec_cmd_path(c) is Some ==> built(command_table(spec_all_commands())).dom().contains(
                split_spaces(spec_cmd_path(c)->0),
            ) && built(command_table(spec_all_commands()))[split_spaces(spec_cmd_path(c)->0)]
                == Some(c),
{
    let all = spec_all_commands();
    let t = command_table(all);
    lemma_table_entries(all);
    lemma_all_commands();
    assert forall|i: int| 0 <= i < t.len() implies #[trigger] entry_fits(t, i) by {
        lemma_split_spaces_nonempty(spec_cmd_path(t[i].1)->0);
        assert forall|j: int| 0 <= j < i implies !is_prefix(t[i].0, #[trigger] t[j].0) by {
            lemma_cmd_paths_prefix_free(t[i].1, t[j].1);
        }
    }
    lemma_built_reads_back(t);
    assert forall|c: CliCommand| #[trigger] spec_cmd_path(c) is Some implies built(t).dom().contains(
        split_spaces(spec_cmd_path(c)->0),
    ) && built(t)[split_spaces(spec_cmd_path(c)->0)] == Some(c) by {
        let k = command_position(c);
        assert(all[k] == c);
        let i = choose|i: int| 0 <= i < t.len() && (#[trigger] t[i]).1 == all[k];
        assert(built(t).dom().contains(t[i].0));
    }
}

} // verus!
