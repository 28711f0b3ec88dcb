//! The subcommand tree of the support CLI: which path of words leads to which
//! API command, how a path is split into words, and the tree built from them.

use vstd::prelude::*;
use vstd::string::*;

use crate::command_table::{
    command_action, command_resource, lemma_cmd_path_names_command, lemma_command_tree_complete,
};

verus! {

/// The operations of the support API that the CLI can run, one per endpoint.
#[derive(Clone, Copy, Debug, PartialEq, Eq, Structural)]
pub enum CliCommand {
    CreateApiUser,
    CreateApiUserToken,
    DeleteApiUserToken,
    GetApiUser,
    ListApiUsers,
    GetApiUserToken,
    ListApiUserTokens,
    UpdateApiUser,
    GetSelf,
    SetApiUserContactEmail,
    CreateLinkToken,
    LinkProvider,
    GetGroups,
    CreateGroup,
    UpdateGroup,
    DeleteGroup,
    GetGroupMembers,
    AddApiUserToGroup,
    RemoveApiUserFromGroup,
    GetMappers,
    CreateMapper,
    DeleteMapper,
    ListOauthClients,
    CreateOauthClient,
    GetOauthClient,
    CreateOauthClientRedirectUri,
    DeleteOauthClientRedirectUri,
    CreateOauthClientSecret,
    DeleteOauthClientSecret,
    ListMagicLinks,
    CreateMagicLink,
    GetMagicLink,
    CreateMagicLinkRedirectUri,
    DeleteMagicLinkRedirectUri,
    CreateMagicLinkSecret,
    DeleteMagicLinkSecret,
    ExchangeDeviceToken,
    GetWebPkceProvider,
    GetDeviceProvider,
    MagicLinkSend,
    MagicLinkExchange,
    AuthzCodeRedirect,
    AuthzCodeCallback,
    AuthzCodeExchange,
    OpenidConfiguration,
    JwksJson,
}

/// Every command, in the order in which the command tree takes them.
pub open spec fn spec_all_commands() -> Seq<CliCommand> {
    seq![
        CliCommand::CreateApiUser,
        CliCommand::CreateApiUserToken,
        CliCommand::DeleteApiUserToken,
        CliCommand::GetApiUser,
        CliCommand::ListApiUsers,
        CliCommand::GetApiUserToken,
        CliCommand::ListApiUserTokens,
        CliCommand::UpdateApiUser,
        CliCommand::GetSelf,
        CliCommand::SetApiUserContactEmail,
        CliCommand::CreateLinkToken,
        CliCommand::LinkProvider,
        CliCommand::GetGroups,
        CliCommand::CreateGroup,
        CliCommand::UpdateGroup,
        CliCommand::DeleteGroup,
        CliCommand::GetGroupMembers,
        CliCommand::AddApiUserToGroup,
        CliCommand::RemoveApiUserFromGroup,
        CliCommand::GetMappers,
        CliCommand::CreateMapper,
        CliCommand::DeleteMapper,
        CliCommand::ListOauthClients,
        CliCommand::CreateOauthClient,
        CliCommand::GetOauthClient,
        CliCommand::CreateOauthClientRedirectUri,
        CliCommand::DeleteOauthClientRedirectUri,
        CliCommand::CreateOauthClientSecret,
        CliCommand::DeleteOauthClientSecret,
        CliCommand::ListMagicLinks,
        CliCommand::CreateMagicLink,
        CliCommand::GetMagicLink,
        CliCommand::CreateMagicLinkRedirectUri,
        CliCommand::DeleteMagicLinkRedirectUri,
        CliCommand::CreateMagicLinkSecret,
        CliCommand::DeleteMagicLinkSecret,
        CliCommand::ExchangeDeviceToken,
        CliCommand::GetWebPkceProvider,
        CliCommand::GetDeviceProvider,
        CliCommand::MagicLinkSend,
        CliCommand::MagicLinkExchange,
        CliCommand::AuthzCodeRedirect,
        CliCommand::AuthzCodeCallback,
        CliCommand::AuthzCodeExchange,
        CliCommand::OpenidConfiguration,
        CliCommand::JwksJson
    ]
}

/// The space-separated subcommand path under which a command is offered, or
/// `None` for the commands that the CLI handles elsewhere or does not offer.
pub open spec fn spec_cmd_path(cmd: CliCommand) -> Option<Seq<char>> {
    match cmd {
        CliCommand::CreateApiUser => Some("sys user create"@),
        CliCommand::CreateApiUserToken => Some("sys user token create"@),
        CliCommand::DeleteApiUserToken => Some("sys user token delete"@),
        CliCommand::GetApiUser => Some("sys user get"@),
        CliCommand::ListApiUsers => Some("sys user list"@),
        CliCommand::GetApiUserToken => Some("sys user token get"@),
        CliCommand::ListApiUserTokens => Some("sys user token list"@),
        CliCommand::UpdateApiUser => Some("sys user update"@),
        CliCommand::GetSelf => Some("self"@),
        CliCommand::SetApiUserContactEmail => Some("sys user contact email set"@),
        CliCommand::CreateLinkToken => None,
        CliCommand::LinkProvider => None,
        CliCommand::GetGroups => Some("sys group list"@),
        CliCommand::CreateGroup => Some("sys group create"@),
        CliCommand::UpdateGroup => Some("sys group update"@),
        CliCommand::DeleteGroup => Some("sys group delete"@),
        CliCommand::GetGroupMembers => Some("sys group membership list"@),
        CliCommand::AddApiUserToGroup => Some("sys group membership add"@),
        CliCommand::RemoveApiUserFromGroup => Some("sys group membership remove"@),
        CliCommand::GetMappers => Some("sys mapper list"@),
        CliCommand::CreateMapper => Some("sys mapper create"@),
        CliCommand::DeleteMapper => Some("sys mapper delete"@),
        CliCommand::ListOauthClients => Some("sys oauth list"@),
        CliCommand::CreateOauthClient => Some("sys oauth create"@),
        CliCommand::GetOauthClient => Some("sys oauth get"@),
        CliCommand::CreateOauthClientRedirectUri => Some("sys oauth redirect create"@),
        CliCommand::DeleteOauthClientRedirectUri => Some("sys oauth redirect delete"@),
        CliCommand::CreateOauthClientSecret => Some("sys oauth secret create"@),
        CliCommand::DeleteOauthClientSecret => Some("sys oauth secret delete"@),
        CliCommand::ListMagicLinks => Some("sys mlink list"@),
        CliCommand::CreateMagicLink => Some("sys mlink create"@),
        CliCommand::GetMagicLink => Some("sys mlink get"@),
        CliCommand::CreateMagicLinkRedirectUri => Some("sys mlink redirect create"@),
        CliCommand::DeleteMagicLinkRedirectUri => Some("sys mlink redirect delete"@),
        CliCommand::CreateMagicLinkSecret => Some("sys mlink secret create"@),
        CliCommand::DeleteMagicLinkSecret => Some("sys mlink secret delete"@),
        CliCommand::ExchangeDeviceToken => None,
        CliCommand::GetWebPkceProvider => None,
        CliCommand::GetDeviceProvider => None,
        CliCommand::MagicLinkSend => None,
        CliCommand::MagicLinkExchange => None,
        CliCommand::AuthzCodeRedirect => None,
        CliCommand::AuthzCodeCallback => None,
        CliCommand::AuthzCodeExchange => None,
        CliCommand::OpenidConfiguration => None,
        CliCommand::JwksJson => None,
    }
}

impl CliCommand {
    /// Every command, in the order in which the command tree takes them.
    pub fn all() -> (res: Vec<CliCommand>)
        ensures
            res@ == spec_all_commands(),
    {
        let mut res: Vec<CliCommand> = Vec::new();
        res.push(CliCommand::CreateApiUser);
        res.push(CliCommand::CreateApiUserToken);
        res.push(CliCommand::DeleteApiUserToken);
        res.push(CliCommand::GetApiUser);
        res.push(CliCommand::ListApiUsers);
        res.push(CliCommand::GetApiUserToken);
        res.push(CliCommand::ListApiUserTokens);
        res.push(CliCommand::UpdateApiUser);
        res.push(CliCommand::GetSelf);
        res.push(CliCommand::SetApiUserContactEmail);
        res.push(CliCommand::CreateLinkToken);
        res.push(CliCommand::LinkProvider);
        res.push(CliCommand::GetGroups);
        res.push(CliCommand::CreateGroup);
        res.push(CliCommand::UpdateGroup);
        res.push(CliCommand::DeleteGroup);
        res.push(CliCommand::GetGroupMembers);
        res.push(CliCommand::AddApiUserToGroup);
        res.push(CliCommand::RemoveApiUserFromGroup);
        res.push(CliCommand::GetMappers);
        res.push(CliCommand::CreateMapper);
        res.push(CliCommand::DeleteMapper);
        res.push(CliCommand::ListOauthClients);
        res.push(CliCommand::CreateOauthClient);
        res.push(CliCommand::GetOauthClient);
        res.push(CliCommand::CreateOauthClientRedirectUri);
        res.push(CliCommand::DeleteOauthClientRedirectUri);
        res.push(CliCommand::CreateOauthClientSecret);
        res.push(CliCommand::DeleteOauthClientSecret);
        res.push(CliCommand::ListMagicLinks);
        res.push(CliCommand::CreateMagicLink);
        res.push(CliCommand::GetMagicLink);
        res.push(CliCommand::CreateMagicLinkRedirectUri);
        res.push(CliCommand::DeleteMagicLinkRedirectUri);
        res.push(CliCommand::CreateMagicLinkSecret);
        res.push(CliCommand::DeleteMagicLinkSecret);
        res.push(CliCommand::ExchangeDeviceToken);
        res.push(CliCommand::GetWebPkceProvider);
        res.push(CliCommand::GetDeviceProvider);
        res.push(CliCommand::MagicLinkSend);
        res.push(CliCommand::MagicLinkExchange);
        res.push(CliCommand::AuthzCodeRedirect);
        res.push(CliCommand::AuthzCodeCallback);
        res.push(CliCommand::AuthzCodeExchange);
        res.push(CliCommand::OpenidConfiguration);
        res.push(CliCommand::JwksJson);
        assert(res@ =~= spec_all_commands());
        res
    }
}

/// The subcommand path of a command, words separated by single spaces.
pub fn cmd_path(cmd: &CliCommand) -> (res: Option<&'static str>)
    ensures
        res is None <==> spec_cmd_path(*cmd) is None,
        res matches Some(s) ==> spec_cmd_path(*cmd) == Some(s@),
        res is Some <==> command_action(*cmd) is Some,
        res matches Some(s) ==> split_spaces(s@) == command_resource(*cmd).push(
            command_action(*cmd)->0,
        ),
{
    proof {
        lemma_cmd_path_names_command(*cmd);
    }
    match cmd {
        CliCommand::CreateApiUser => Some("sys user create"),
        CliCommand::CreateApiUserToken => Some("sys user token create"),
        CliCommand::DeleteApiUserToken => Some("sys user token delete"),
        CliCommand::GetApiUser => Some("sys user get"),
        CliCommand::ListApiUsers => Some("sys user list"),
        CliCommand::GetApiUserToken => Some("sys user token get"),
        CliCommand::ListApiUserTokens => Some("sys user token list"),
        CliCommand::UpdateApiUser => Some("sys user update"),
        CliCommand::GetSelf => Some("self"),
        CliCommand::SetApiUserContactEmail => Some("sys user contact email set"),
        CliCommand::CreateLinkToken => None,
        CliCommand::LinkProvider => None,
        CliCommand::GetGroups => Some("sys group list"),
        CliCommand::CreateGroup => Some("sys group create"),
        CliCommand::UpdateGroup => Some("sys group update"),
        CliCommand::DeleteGroup => Some("sys group delete"),
        CliCommand::GetGroupMembers => Some("sys group membership list"),
        CliCommand::AddApiUserToGroup => Some("sys group membership add"),
        CliCommand::RemoveApiUserFromGroup => Some("sys group membership remove"),
        CliCommand::GetMappers => Some("sys mapper list"),
        CliCommand::CreateMapper => Some("sys mapper create"),
        CliCommand::DeleteMapper => Some("sys mapper delete"),
        CliCommand::ListOauthClients => Some("sys oauth list"),
        CliCommand::CreateOauthClient => Some("sys oauth create"),
        CliCommand::GetOauthClient => Some("sys oauth get"),
        CliCommand::CreateOauthClientRedirectUri => Some("sys oauth redirect create"),
        CliCommand::DeleteOauthClientRedirectUri => Some("sys oauth redirect delete"),
        CliCommand::CreateOauthClientSecret => Some("sys oauth secret create"),
        CliCommand::DeleteOauthClientSecret => Some("sys oauth secret delete"),
        CliCommand::ListMagicLinks => Some("sys mlink list"),
        CliCommand::CreateMagicLink => Some("sys mlink create"),
        CliCommand::GetMagicLink => Some("sys mlink get"),
        CliCommand::CreateMagicLinkRedirectUri => Some("sys mlink redirect create"),
        CliCommand::DeleteMagicLinkRedirectUri => Some("sys mlink redirect delete"),
        CliCommand::CreateMagicLinkSecret => Some("sys mlink secret create"),
        CliCommand::DeleteMagicLinkSecret => Some("sys mlink secret delete"),
        CliCommand::ExchangeDeviceToken => None,
        CliCommand::GetWebPkceProvider => None,
        CliCommand::GetDeviceProvider => None,
        CliCommand::MagicLinkSend => None,
        CliCommand::MagicLinkExchange => None,
        CliCommand::AuthzCodeRedirect => None,
        CliCommand::AuthzCodeCallback => None,
        CliCommand::AuthzCodeExchange => None,
        CliCommand::OpenidConfiguration => None,
        CliCommand::JwksJson => None,
    }
}

/// The words of a command path, each as a string of characters.
pub open spec fn path_view(p: Seq<String>) -> Seq<Seq<char>> {
    p.map_values(|s: String| s@)
}

/// The pieces of `s` between single spaces, as `str::split(' ')` yields them:
/// one piece more than there are spaces, empty pieces included.
pub open spec fn split_spaces(s: Seq<char>) -> Seq<Seq<char>>
    decreases s.len(),
{
    if s.len() == 0 {
        seq![Seq::empty()]
    } else {
        let init = split_spaces(s.drop_last());
        if s.last() == ' ' {
            init.push(Seq::empty())
        } else {
            init.update(init.len() - 1, init.last().push(s.last()))
        }
    }
}

/// A split always yields at least one piece.
pub proof fn lemma_split_spaces_nonempty(s: Seq<char>)
    ensures
        split_spaces(s).len() >= 1,
    decreases s.len(),
{
    if s.len() > 0 {
        lemma_split_spaces_nonempty(s.drop_last());
    }
}

/// Splits a subcommand path into its words at each single space.
pub fn split_path(path: &str) -> (res: Vec<String>)
    ensures
        path_view(res@) == split_spaces(path@),
{
    let n: usize = path.unicode_len();
    let mut parts: Vec<String> = Vec::new();
    let mut start: usize = 0;
    let mut i: usize = 0;
    assert(path@.take(0) =~= Seq::<char>::empty());
    assert(path_view(parts@).push(path@.subrange(0, 0)) =~= split_spaces(path@.take(0)));
    while i < n
        invariant
            n == path@.len(),
            start <= i <= n,
            path_view(parts@).push(path@.subrange(start as int, i as int)) == split_spaces(
                path@.take(i as int),
            ),
        decreases n - i,
    {
        let c = path.get_char(i);
        let ghost before = split_spaces(path@.take(i as int));
        proof {
            lemma_split_spaces_nonempty(path@.take(i as int));
            assert(path@.take(i + 1).drop_last() =~= path@.take(i as int));
            assert(path@.take(i + 1).last() == c);
        }
        if c == ' ' {
            let piece = path.substring_char(start, i);
            let ghost old_parts = parts@;
            parts.push(String::from_str(piece));
            start = i + 1;
            proof {
                assert(path_view(parts@) =~= path_view(old_parts).push(piece@));
                assert(path@.subrange(start as int, i + 1) =~= Seq::<char>::empty());
                assert(path_view(parts@).push(path@.subrange(start as int, i + 1)) =~= before.push(
                    Seq::empty(),
                ));
            }
        } else {
            proof {
                assert(path@.subrange(start as int, i + 1) =~= path@.subrange(
                    start as int,
                    i as int,
                ).push(c));
                assert(path_view(parts@).push(path@.subrange(start as int, i + 1)) =~= before.update(
                    before.len() - 1,
                    before.last().push(c),
                ));
            }
        }
        i = i + 1;
    }
    let piece = path.substring_char(start, n);
    let ghost old_parts = parts@;
    parts.push(String::from_str(piece));
    proof {
        assert(path@.take(n as int) =~= path@);
        assert(path_view(parts@) =~= path_view(old_parts).push(piece@));
    }
    parts
}


/// The words joined back together, a single space between each two.
pub open spec fn join_spaces(words: Seq<Seq<char>>) -> Seq<char>
    decreases words.len(),
{
    if words.len() == 0 {
        Seq::empty()
    } else if words.len() == 1 {
        words[0]
    } else {
        join_spaces(words.drop_last()) + seq![' '] + words.last()
    }
}

/// Law of path splitting: no word holds a space, and joining the words with
/// single spaces gives the path back.
pub proof fn lemma_split_join(s: Seq<char>)
    ensures
        join_spaces(split_spaces(s)) == s,
        forall|i: int, j: int|
            0 <= i < split_spaces(s).len() && 0 <= j < split_spaces(s)[i].len() ==> #[trigger] split_spaces(
                s,
            )[i][j] != ' ',
    decreases s.len(),
{
    if s.len() > 0 {
        let t = s.drop_last();
        lemma_split_join(t);
        lemma_split_spaces_nonempty(t);
        let w = split_spaces(t);
        let n: nat = w.len();
        if s.last() == ' ' {
            let v = w.push(Seq::empty());
            assert(v.drop_last() =~= w);
            assert(join_spaces(v) =~= join_spaces(w) + seq![' '] + Seq::<char>::empty());
            assert(join_spaces(v) =~= s);
            assert forall|i: int, j: int|
                0 <= i < v.len() && 0 <= j < v[i].len() implies #[trigger] v[i][j] != ' ' by {
                assert(v[i] == w[i]);
            }
        } else {
            let v = w.update(n - 1, w.last().push(s.last()));
            if n == 1 {
                assert(join_spaces(v) =~= v[0]);
                assert(join_spaces(w) == w[0]);
                assert(v[0] =~= t.push(s.last()));
            } else {
                assert(v.drop_last() =~= w.drop_last());
                assert(join_spaces(v) =~= join_spaces(w.drop_last()) + seq![' '] + w.last().push(
                    s.last(),
                ));
                assert(join_spaces(w) =~= join_spaces(w.drop_last()) + seq![' '] + w.last());
                assert(join_spaces(v) =~= join_spaces(w).push(s.last()));
            }
            assert(s =~= t.push(s.last()));
            assert(join_spaces(v) =~= s);
            assert forall|i: int, j: int|
                0 <= i < v.len() && 0 <= j < v[i].len() implies #[trigger] v[i][j] != ' ' by {
                if i < n - 1 {
                    assert(v[i] == w[i]);
                } else if j < w[i].len() {
                    assert(v[i][j] == w[i][j]);
                }
            }
        }
    } else {
        assert(join_spaces(split_spaces(s)) =~= s);
    }
}


/// A word with no space in it.
pub open spec fn no_space(w: Seq<char>) -> bool {
    forall|m: int| 0 <= m < w.len() ==> w[m] != ' '
}

proof fn lemma_split_no_space(l: Seq<char>)
    requires
        no_space(l),
    ensures
        split_spaces(l) == seq![l],
    decreases l.len(),
{
    if l.len() > 0 {
        let t = l.drop_last();
        lemma_split_no_space(t);
        assert(l =~= t.push(l.last()));
        assert(split_spaces(l) =~= seq![l]);
    } else {
        assert(l =~= Seq::<char>::empty());
    }
}

proof fn lemma_split_after_space(x: Seq<char>, l: Seq<char>)
    requires
        no_space(l),
    ensures
        split_spaces(x + seq![' '] + l) == split_spaces(x).push(l),
    decreases l.len(),
{
    if l.len() == 0 {
        assert((x + seq![' '] + l).drop_last() =~= x);
        assert(l =~= Seq::<char>::empty());
    } else {
        let t = l.drop_last();
        lemma_split_after_space(x, t);
        lemma_split_spaces_nonempty(x + seq![' '] + t);
        assert((x + seq![' '] + l).drop_last() =~= x + seq![' '] + t);
        assert(split_spaces(x + seq![' '] + l) =~= split_spaces(x).push(t).update(
            split_spaces(x).len() as int,
            t.push(l.last()),
        ));
        assert(t.push(l.last()) =~= l);
        assert(split_spaces(x + seq![' '] + l) =~= split_spaces(x).push(l));
    }
}

/// Law of path splitting, the other way round: words that hold no space,
/// joined with single spaces, split back into the same words.
pub proof fn lemma_join_split(w: Seq<Seq<char>>)
    requires
        w.len() >= 1,
        forall|k: int| 0 <= k < w.len() ==> no_space(#[trigger] w[k]),
    ensures
        split_spaces(join_spaces(w)) == w,
    decreases w.len(),
{
    if w.len() == 1 {
        assert(no_space(w[0]));
        lemma_split_no_space(w[0]);
        assert(w =~= seq![w[0]]);
    } else {
        let v = w.drop_last();
        assert forall|k: int| 0 <= k < v.len() implies no_space(#[trigger] v[k]) by {
            assert(v[k] == w[k]);
        }
        lemma_join_split(v);
        assert(no_space(w.last()));
        lemma_split_after_space(join_spaces(v), w.last());
        assert(w =~= v.push(w.last()));
    }
}

/// `q` is `p` cut short after its first `q.len()` words (or `p` itself).
pub open spec fn is_prefix(q: Seq<Seq<char>>, p: Seq<Seq<char>>) -> bool {
    q.len() <= p.len() && q == p.take(q.len() as int)
}

/// Neither of the paths `p` and `q` begins the other.
pub open spec fn apart(p: Seq<Seq<char>>, q: Seq<Seq<char>>) -> bool {
    !is_prefix(p, q) && !is_prefix(q, p)
}

/// The tree `m` after the walk down path `p` (creating the missing inner
/// nodes as nodes without a command) and the new leaf `p` holding `c`.
pub open spec fn with_path(
    m: Map<Seq<Seq<char>>, Option<CliCommand>>,
    p: Seq<Seq<char>>,
    c: CliCommand,
) -> Map<Seq<Seq<char>>, Option<CliCommand>> {
    Map::new(
        |q: Seq<Seq<char>>| m.dom().contains(q) || is_prefix(q, p),
        |q: Seq<Seq<char>>|
            if q == p {
                Some(c)
            } else if m.dom().contains(q) {
                m[q]
            } else {
                None
            },
    )
}

/// `m` with the inner nodes of path `p` shorter than `k` words added.
pub open spec fn with_prefixes(
    m: Map<Seq<Seq<char>>, Option<CliCommand>>,
    p: Seq<Seq<char>>,
    k: int,
) -> Map<Seq<Seq<char>>, Option<CliCommand>> {
    Map::new(
        |q: Seq<Seq<char>>| m.dom().contains(q) || (is_prefix(q, p) && q.len() < k),
        |q: Seq<Seq<char>>|
            if m.dom().contains(q) {
                m[q]
            } else {
                None
            },
    )
}

/// One node of the command tree: the words that lead to it from the root and
/// the command it runs, if it is a leaf.
pub struct TreeNode {
    path: Vec<String>,
    cmd: Option<CliCommand>,
}

/// The subcommand tree of the CLI. Each node is known by its path from the
/// root; the root is the empty path. The nodes are kept in one list, each
/// with its whole path, and no two nodes share a path.
pub struct CommandTree {
    nodes: Vec<TreeNode>,
}

pub closed spec fn node_path(n: TreeNode) -> Seq<Seq<char>> {
    path_view(n.path@)
}

pub closed spec fn nodes_map(s: Seq<TreeNode>) -> Map<Seq<Seq<char>>, Option<CliCommand>>
    decreases s.len(),
{
    if s.len() == 0 {
        Map::empty()
    } else {
        nodes_map(s.drop_last()).insert(node_path(s.last()), s.last().cmd)
    }
}

pub closed spec fn distinct_paths(s: Seq<TreeNode>) -> bool {
    forall|i: int, j: int| 0 <= i < j < s.len() ==> node_path(s[i]) != node_path(s[j])
}

impl View for CommandTree {
    /// Each node's path, mapped to the command of that node.
    type V = Map<Seq<Seq<char>>, Option<CliCommand>>;

    closed spec fn view(&self) -> Self::V {
        nodes_map(self.nodes@)
    }
}

proof fn lemma_nodes_map_dom(s: Seq<TreeNode>, q: Seq<Seq<char>>)
    ensures
        nodes_map(s).dom().contains(q) <==> exists|i: int| 0 <= i < s.len() && node_path(s[i]) == q,
    decreases s.len(),
{
    if s.len() > 0 {
        lemma_nodes_map_dom(s.drop_last(), q);
        if nodes_map(s.drop_last()).dom().contains(q) {
            let i: int = choose|i: int| 0 <= i < s.len() - 1 && node_path(s.drop_last()[i]) == q;
            assert(node_path(s[i]) == q);
        }
        if exists|i: int| 0 <= i < s.len() && node_path(s[i]) == q {
            let i: int = choose|i: int| 0 <= i < s.len() && node_path(s[i]) == q;
            if i < s.len() - 1 {
                assert(node_path(s.drop_last()[i]) == q);
            }
        }
    }
}

proof fn lemma_nodes_map_value(s: Seq<TreeNode>, i: int)
    requires
        distinct_paths(s),
        0 <= i < s.len(),
    ensures
        nodes_map(s).dom().contains(node_path(s[i])),
        nodes_map(s)[node_path(s[i])] == s[i].cmd,
    decreases s.len(),
{
    if i < s.len() - 1 {
        let t = s.drop_last();
        assert(t[i] == s[i]);
        assert(distinct_paths(t));
        lemma_nodes_map_value(t, i);
        assert(node_path(s[i]) != node_path(s.last()));
    }
}

proof fn lemma_nodes_map_push(s: Seq<TreeNode>, n: TreeNode)
    ensures
        nodes_map(s.push(n)) == nodes_map(s).insert(node_path(n), n.cmd),
{
    assert(s.push(n).drop_last() =~= s);
}

/// The words of `path` up to, not including, word `k`.
fn path_prefix(path: &Vec<String>, k: usize) -> (res: Vec<String>)
    requires
        k <= path.len(),
    ensures
        path_view(res@) == path_view(path@).take(k as int),
{
    let mut res: Vec<String> = Vec::new();
    let mut j: usize = 0;
    while j < k
        invariant
            j <= k <= path.len(),
            path_view(res@) =~= path_view(path@).take(j as int),
        decreases k - j,
    {
        let ghost before = res@;
        res.push(path[j].clone());
        proof {
            assert(res@ =~= before.push(path@[j as int]));
            assert(path_view(res@) =~= path_view(before).push(path@[j as int]@));
            assert(path_view(path@).take(j + 1) =~= path_view(path@).take(j as int).push(
                path@[j as int]@,
            ));
        }
        j = j + 1;
    }
    res
}

/// Whether two paths hold the same words.
fn same_path(a: &Vec<String>, b: &Vec<String>) -> (res: bool)
    ensures
        res == (path_view(a@) == path_view(b@)),
{
    if a.len() != b.len() {
        assert(path_view(a@).len() != path_view(b@).len());
        return false;
    }
    let mut j: usize = 0;
    while j < a.len()
        invariant
            a.len() == b.len(),
            j <= a.len(),
            forall|i: int| 0 <= i < j ==> a@[i]@ == b@[i]@,
        decreases a.len() - j,
    {
        if a[j] != b[j] {
            assert(path_view(a@)[j as int] != path_view(b@)[j as int]);
            return false;
        }
        j = j + 1;
    }
    assert(path_view(a@) =~= path_view(b@));
    true
}

impl CommandTree {
    /// The tree's own shape: node paths are distinct, the root is a node, and
    /// every node's ancestors are nodes.
    pub closed spec fn wf(&self) -> bool {
        &&& distinct_paths(self.nodes@)
        &&& self@.dom().contains(Seq::empty())
        &&& forall|q: Seq<Seq<char>>, k: int|
            #![trigger self@.dom().contains(q), q.take(k)]
            self@.dom().contains(q) && 0 <= k <= q.len() ==> self@.dom().contains(q.take(k))
    }

    /// A tree that holds only its root, which runs no command.
    pub fn new() -> (res: CommandTree)
        ensures
            res.wf(),
            res@ == Map::<Seq<Seq<char>>, Option<CliCommand>>::empty().insert(Seq::empty(), None),
    {
        let mut nodes: Vec<TreeNode> = Vec::new();
        nodes.push(TreeNode { path: Vec::new(), cmd: None });
        let res = CommandTree { nodes };
        proof {
            let s = res.nodes@;
            assert(s.drop_last() =~= Seq::<TreeNode>::empty());
            assert(nodes_map(s.drop_last()) == Map::<Seq<Seq<char>>, Option<CliCommand>>::empty());
            assert(node_path(s[0]) =~= Seq::<Seq<char>>::empty());
            assert(res@ == Map::<Seq<Seq<char>>, Option<CliCommand>>::empty().insert(
                Seq::empty(),
                None,
            ));
            assert forall|q: Seq<Seq<char>>, k: int|
                #![trigger res@.dom().contains(q), q.take(k)]
                res@.dom().contains(q) && 0 <= k <= q.len() implies res@.dom().contains(q.take(k)) by {
                assert(q == Seq::<Seq<char>>::empty());
                assert(q.take(k) =~= Seq::<Seq<char>>::empty());
            }
        }
        res
    }

    /// The index of the node at `path`, if there is one.
    fn find(&self, path: &Vec<String>) -> (res: Option<usize>)
        requires
            distinct_paths(self.nodes@),
        ensures
            res is None <==> !self@.dom().contains(path_view(path@)),
            res matches Some(i) ==> i < self.nodes@.len() && node_path(self.nodes@[i as int])
                == path_view(path@),
    {
        proof {
            lemma_nodes_map_dom(self.nodes@, path_view(path@));
        }
        let mut i: usize = 0;
        while i < self.nodes.len()
            invariant
                i <= self.nodes@.len(),
                forall|j: int| 0 <= j < i ==> node_path(self.nodes@[j]) != path_view(path@),
            decreases self.nodes@.len() - i,
        {
            if same_path(&self.nodes[i].path, path) {
                assert(node_path(self.nodes@[i as int]) == path_view(path@));
                proof {
                    lemma_nodes_map_dom(self.nodes@, path_view(path@));
                }
                return Some(i);
            }
            i = i + 1;
        }
        None
    }

    /// Whether `path` leads to a node of the tree.
    pub fn contains_path(&self, path: &Vec<String>) -> (res: bool)
        requires
            self.wf(),
        ensures
            res == self@.dom().contains(path_view(path@)),
    {
        self.find(path).is_some()
    }

    /// The command run by the node at `path`; `None` where there is no node
    /// or the node is an inner one.
    pub fn command_at(&self, path: &Vec<String>) -> (res: Option<CliCommand>)
        requires
            self.wf(),
        ensures
            res == (if self@.dom().contains(path_view(path@)) {
                self@[path_view(path@)]
            } else {
                None
            }),
    {
        match self.find(path) {
            Some(i) => {
                proof {
                    lemma_nodes_map_value(self.nodes@, i as int);
                }
                self.nodes[i].cmd
            },
            None => None,
        }
    }

    /// Adds the leaf `path` running `cmd`, creating the inner nodes on the
    /// way. Refused, leaving the tree as it was, where `path` is a node already.
    pub fn insert(&mut self, path: Vec<String>, cmd: CliCommand) -> (res: Result<(), CliCommand>)
        requires
            old(self).wf(),
        ensures
            final(self).wf(),
            res is Err <==> old(self)@.dom().contains(path_view(path@)),
            res is Err ==> res == Err::<(), CliCommand>(cmd) && final(self)@ == old(self)@,
            res is Ok ==> final(self)@ == with_path(old(self)@, path_view(path@), cmd),
    {
        let ghost p = path_view(path@);
        let ghost m = self@;
        if self.find(&path).is_some() {
            return Err(cmd);
        }
        let n: usize = path.len();
        assert(n > 0) by {
            if n == 0 {
                assert(p =~= Seq::<Seq<char>>::empty());
            }
        }
        assert(self@ =~= with_prefixes(m, p, 1)) by {
            assert forall|q: Seq<Seq<char>>| is_prefix(q, p) && q.len() < 1 implies m.dom().contains(
                q,
            ) by {
                assert(q =~= Seq::<Seq<char>>::empty());
            }
        }
        let mut k: usize = 1;
        while k < n
            invariant
                1 <= k <= n,
                n == path@.len(),
                p == path_view(path@),
                !m.dom().contains(p),
                distinct_paths(self.nodes@),
                self@ == with_prefixes(m, p, k as int),
            decreases n - k,
        {
            let prefix = path_prefix(&path, k);
            let ghost q = path_view(prefix@);
            assert(is_prefix(q, p));
            if self.find(&prefix).is_none() {
                let ghost s = self.nodes@;
                self.nodes.push(TreeNode { path: prefix, cmd: None });
                proof {
                    lemma_nodes_map_push(s, self.nodes@.last());
                    assert(self.nodes@.drop_last() =~= s);
                    assert forall|i: int, j: int|
                        0 <= i < j < self.nodes@.len() implies node_path(self.nodes@[i]) != node_path(
                        self.nodes@[j],
                    ) by {
                        if j == s.len() {
                            lemma_nodes_map_dom(s, q);
                            assert(self.nodes@[i] == s[i]);
                        } else {
                            assert(self.nodes@[i] == s[i] && self.nodes@[j] == s[j]);
                        }
                    }
                    assert(self@ =~= with_prefixes(m, p, k + 1));
                }
            } else {
                assert(self@ =~= with_prefixes(m, p, k + 1));
            }
            k = k + 1;
        }
        let ghost s = self.nodes@;
        assert(!self@.dom().contains(p));
        self.nodes.push(TreeNode { path, cmd: Some(cmd) });
        proof {
            lemma_nodes_map_push(s, self.nodes@.last());
            assert forall|i: int, j: int|
                0 <= i < j < self.nodes@.len() implies node_path(self.nodes@[i]) != node_path(
                self.nodes@[j],
            ) by {
                if j == s.len() {
                    lemma_nodes_map_dom(s, p);
                    assert(self.nodes@[i] == s[i]);
                } else {
                    assert(self.nodes@[i] == s[i] && self.nodes@[j] == s[j]);
                }
            }
            assert(p.take(n as int) =~= p);
            assert(is_prefix(p, p));
            assert(self@ == with_prefixes(m, p, n as int).insert(p, Some(cmd)));
            assert forall|r: Seq<Seq<char>>| is_prefix(r, p) && r.len() >= n implies r == p by {
                assert(r =~= p);
            }
            assert(self@ =~= with_path(m, p, cmd));
            assert forall|r: Seq<Seq<char>>, k: int|
                #![trigger self@.dom().contains(r), r.take(k)]
                self@.dom().contains(r) && 0 <= k <= r.len() implies self@.dom().contains(
                r.take(k),
            ) by {
                if m.dom().contains(r) {
                    assert(m.dom().contains(r.take(k)));
                } else {
                    assert(is_prefix(r, p));
                    assert(r.take(k) =~= p.take(k));
                    assert(is_prefix(r.take(k), p));
                }
            }
        }
        Ok(())
    }

    /// The words that lead from the node at `path` to its children, each once.
    pub fn child_names(&self, path: &Vec<String>) -> (res: Vec<String>)
        requires
            self.wf(),
        ensures
            forall|i: int|
                0 <= i < res@.len() ==> self@.dom().contains(
                    #[trigger] path_view(path@).push(res@[i]@),
                ),
            forall|q: Seq<Seq<char>>|
                #![trigger self@.dom().contains(q)]
                self@.dom().contains(q) && q.len() == path@.len() + 1 && is_prefix(
                    path_view(path@),
                    q,
                ) ==> exists|i: int| 0 <= i < res@.len() && res@[i]@ == q.last(),
            forall|i: int, j: int| 0 <= i < j < res@.len() ==> res@[i]@ != res@[j]@,
    {
        let ghost pv = path_view(path@);
        let ghost s = self.nodes@;
        let mut res: Vec<String> = Vec::new();
        let ghost mut idx: Seq<int> = Seq::empty();
        let mut i: usize = 0;
        while i < self.nodes.len()
            invariant
                s == self.nodes@,
                pv == path_view(path@),
                distinct_paths(s),
                i <= s.len(),
                idx.len() == res@.len(),
                forall|k: int| 0 <= k < idx.len() ==> 0 <= #[trigger] idx[k] < i,
                forall|k: int, l: int| 0 <= k < l < idx.len() ==> idx[k] < idx[l],
                forall|k: int|
                    0 <= k < idx.len() ==> #[trigger] node_path(s[idx[k]]) == pv.push(res@[k]@),
                forall|j: int|
                    0 <= j < i && node_path(s[j]).len() == pv.len() + 1 && is_prefix(
                        pv,
                        #[trigger] node_path(s[j]),
                    ) ==> exists|k: int| 0 <= k < res@.len() && res@[k]@ == node_path(s[j]).last(),
            decreases s.len() - i,
        {
            let candidate = &self.nodes[i].path;
            if candidate.len() > path.len() && candidate.len() - 1 == path.len() {
                let head = path_prefix(candidate, path.len());
                if same_path(&head, path) {
                    let last = candidate[path.len()].clone();
                    let ghost old_res = res@;
                    res.push(last);
                    proof {
                        let q = node_path(s[i as int]);
                        assert(q.take(pv.len() as int) == pv);
                        assert(q =~= pv.push(res@.last()@));
                        idx = idx.push(i as int);
                        assert forall|j: int|
                            0 <= j < i + 1 && node_path(s[j]).len() == pv.len() + 1 && is_prefix(
                                pv,
                                #[trigger] node_path(s[j]),
                            ) implies exists|k: int|
                            0 <= k < res@.len() && res@[k]@ == node_path(s[j]).last() by {
                            if j == i {
                                assert(res@[res@.len() - 1]@ == node_path(s[j]).last());
                            } else {
                                let k: int = choose|k: int|
                                    0 <= k < old_res.len() && old_res[k]@ == node_path(s[j]).last();
                                assert(res@[k] == old_res[k]);
                            }
                        }
                    }
                } else {
                    proof {
                        assert forall|j: int|
                            0 <= j < i + 1 && node_path(s[j]).len() == pv.len() + 1 && is_prefix(
                                pv,
                                #[trigger] node_path(s[j]),
                            ) implies exists|k: int|
                            0 <= k < res@.len() && res@[k]@ == node_path(s[j]).last() by {
                            if j == i {
                                assert(node_path(s[j]).take(pv.len() as int) =~= path_view(
                                    head@,
                                ));
                            }
                        }
                    }
                }
            }
            i = i + 1;
        }
        proof {
            assert forall|q: Seq<Seq<char>>|
                #![trigger self@.dom().contains(q)]
                self@.dom().contains(q) && q.len() == path@.len() + 1 && is_prefix(pv, q) implies exists|
                i: int,
            | 0 <= i < res@.len() && res@[i]@ == q.last() by {
                lemma_nodes_map_dom(s, q);
                let j: int = choose|j: int| 0 <= j < s.len() && node_path(s[j]) == q;
                assert(node_path(s[j]) == q);
            }
            assert forall|k: int| 0 <= k < res@.len() implies self@.dom().contains(
                #[trigger] pv.push(res@[k]@),
            ) by {
                lemma_nodes_map_value(s, idx[k]);
            }
            assert forall|k: int, l: int| 0 <= k < l < res@.len() implies res@[k]@ != res@[l]@ by {
                assert(node_path(s[idx[k]]) != node_path(s[idx[l]]));
            }
        }
        res
    }
}

/// The tree that holds only its root.
pub open spec fn root_only() -> Map<Seq<Seq<char>>, Option<CliCommand>> {
    Map::empty().insert(Seq::empty(), None)
}

/// The tree built by inserting each entry, in order, into the root-only tree.
pub open spec fn built(s: Seq<(Seq<Seq<char>>, CliCommand)>) -> Map<
    Seq<Seq<char>>,
    Option<CliCommand>,
>
    decreases s.len(),
{
    if s.len() == 0 {
        root_only()
    } else {
        with_path(built(s.drop_last()), s.last().0, s.last().1)
    }
}

/// Entry `i` can be inserted after the entries before it: its path is not
/// empty and is not a path, or the start of a path, inserted before it.
pub open spec fn entry_fits(s: Seq<(Seq<Seq<char>>, CliCommand)>, i: int) -> bool {
    &&& s[i].0.len() > 0
    &&& forall|j: int| 0 <= j < i ==> !is_prefix(s[i].0, #[trigger] s[j].0)
}

/// Every entry can be inserted after the entries before it.
pub open spec fn entries_fit(s: Seq<(Seq<Seq<char>>, CliCommand)>) -> bool {
    forall|i: int| 0 <= i < s.len() ==> #[trigger] entry_fits(s, i)
}

/// The entries as paths of words and commands.
pub open spec fn entries_view(e: Seq<(Vec<String>, CliCommand)>) -> Seq<
    (Seq<Seq<char>>, CliCommand),
> {
    e.map_values(|x: (Vec<String>, CliCommand)| (path_view(x.0@), x.1))
}

/// The nodes of a built tree are the root and the starts of the entries' paths.
pub proof fn lemma_built_dom(s: Seq<(Seq<Seq<char>>, CliCommand)>, q: Seq<Seq<char>>)
    ensures
        built(s).dom().contains(q) <==> q.len() == 0 || exists|j: int|
            0 <= j < s.len() && is_prefix(q, #[trigger] s[j].0),
    decreases s.len(),
{
    if s.len() == 0 {
        if q.len() == 0 {
            assert(q =~= Seq::<Seq<char>>::empty());
        }
    } else {
        let t = s.drop_last();
        lemma_built_dom(t, q);
        if exists|j: int| 0 <= j < t.len() && is_prefix(q, #[trigger] t[j].0) {
            let j: int = choose|j: int| 0 <= j < t.len() && is_prefix(q, #[trigger] t[j].0);
            assert(s[j] == t[j]);
        }
        if exists|j: int| 0 <= j < s.len() && is_prefix(q, #[trigger] s[j].0) {
            let j: int = choose|j: int| 0 <= j < s.len() && is_prefix(q, #[trigger] s[j].0);
            if j < t.len() {
                assert(s[j] == t[j]);
            }
        }
    }
}

/// Inserting a leaf gives back its command at its path, and leaves the
/// command of every other node as it was.
pub proof fn lemma_with_path_reads_back(
    m: Map<Seq<Seq<char>>, Option<CliCommand>>,
    p: Seq<Seq<char>>,
    c: CliCommand,
)
    ensures
        with_path(m, p, c).dom().contains(p),
        with_path(m, p, c)[p] == Some(c),
        forall|q: Seq<Seq<char>>|
            #![trigger m.dom().contains(q)]
            m.dom().contains(q) && q != p ==> with_path(m, p, c).dom().contains(q) && with_path(
                m,
                p,
                c,
            )[q] == m[q],
{
    assert(p.take(p.len() as int) =~= p);
}

/// Law of the command tree: when every entry fits, the built tree holds each
/// entry's command at that entry's path.
pub proof fn lemma_built_reads_back(s: Seq<(Seq<Seq<char>>, CliCommand)>)
    requires
        entries_fit(s),
    ensures
        forall|i: int|
            0 <= i < s.len() ==> built(s).dom().contains(#[trigger] s[i].0) && built(s)[s[i].0]
                == Some(s[i].1),
    decreases s.len(),
{
    if s.len() > 0 {
        let t = s.drop_last();
        assert forall|i: int| 0 <= i < t.len() implies #[trigger] entry_fits(t, i) by {
            assert(entry_fits(s, i));
            assert forall|j: int| 0 <= j < i implies !is_prefix(t[i].0, #[trigger] t[j].0) by {
                assert(t[j] == s[j]);
            }
        }
        lemma_built_reads_back(t);
        let n: int = s.len() - 1;
        lemma_with_path_reads_back(built(t), s[n].0, s[n].1);
        assert forall|i: int|
            0 <= i < s.len() implies built(s).dom().contains(#[trigger] s[i].0) && built(s)[s[i].0]
            == Some(s[i].1) by {
            if i < n {
                assert(t[i] == s[i]);
                assert(entry_fits(s, n));
                assert(!is_prefix(s[n].0, s[i].0));
                assert(s[n].0 != s[i].0) by {
                    if s[n].0 == s[i].0 {
                        assert(s[i].0.take(s[i].0.len() as int) =~= s[i].0);
                    }
                }
            }
        }
    }
}

/// Builds a tree from the entries, in order. Refused with the command of the
/// first entry that does not fit.
pub fn build_tree(entries: &Vec<(Vec<String>, CliCommand)>) -> (res: Result<CommandTree, CliCommand>)
    ensures
        res is Ok <==> entries_fit(entries_view(entries@)),
        res matches Ok(t) ==> t.wf() && t@ == built(entries_view(entries@)),
        res matches Err(c) ==> exists|i: int|
            0 <= i < entries@.len() && !entry_fits(entries_view(entries@), i) && (forall|j: int|
                0 <= j < i ==> #[trigger] entry_fits(entries_view(entries@), j))
                && c == entries@[i].1,
{
    let ghost ev = entries_view(entries@);
    let mut tree = CommandTree::new();
    let mut i: usize = 0;
    assert(ev.take(0) =~= Seq::<(Seq<Seq<char>>, CliCommand)>::empty());
    while i < entries.len()
        invariant
            ev == entries_view(entries@),
            i <= entries@.len(),
            tree.wf(),
            tree@ == built(ev.take(i as int)),
            forall|j: int| 0 <= j < i ==> #[trigger] entry_fits(ev, j),
        decreases entries@.len() - i,
    {
        let path = path_prefix(&entries[i].0, entries[i].0.len());
        let cmd = entries[i].1;
        let ghost p = ev[i as int].0;
        assert(path_view(entries@[i as int].0@).take(entries@[i as int].0@.len() as int)
            =~= path_view(entries@[i as int].0@));
        proof {
            lemma_built_dom(ev.take(i as int), p);
            assert forall|j: int| 0 <= j < i implies ev.take(i as int)[j] == ev[j] by {}
            if exists|j: int| 0 <= j < i && is_prefix(p, #[trigger] ev.take(i as int)[j].0) {
                let j: int = choose|j: int| 0 <= j < i && is_prefix(p, #[trigger] ev.take(i as int)[j].0);
                assert(is_prefix(p, ev[j].0));
            }
            if exists|j: int| 0 <= j < i && is_prefix(p, #[trigger] ev[j].0) {
                let j: int = choose|j: int| 0 <= j < i && is_prefix(p, #[trigger] ev[j].0);
                assert(is_prefix(p, ev.take(i as int)[j].0));
            }
        }
        match tree.insert(path, cmd) {
            Ok(()) => {},
            Err(c) => {
                proof {
                    if p.len() > 0 {
                        assert(exists|j: int|
                            0 <= j < ev.take(i as int).len() && is_prefix(
                                p,
                                #[trigger] ev.take(i as int)[j].0,
                            ));
                        let j: int = choose|j: int| 0 <= j < i && is_prefix(p, #[trigger] ev[j].0);
                        assert(is_prefix(ev[i as int].0, ev[j].0));
                    }
                    assert(!entry_fits(ev, i as int));
                }
                return Err(c);
            },
        }
        assert(ev.take(i + 1).drop_last() =~= ev.take(i as int));
        i = i + 1;
    }
    assert(ev.take(entries@.len() as int) =~= ev);
    Ok(tree)
}

/// The table of commands that have a path: each one's path split into words,
/// with the command, in the order of `cmds`.
pub open spec fn command_table(cmds: Seq<CliCommand>) -> Seq<(Seq<Seq<char>>, CliCommand)>
    decreases cmds.len(),
{
    if cmds.len() == 0 {
        Seq::empty()
    } else {
        let rest = command_table(cmds.drop_last());
        match spec_cmd_path(cmds.last()) {
            Some(s) => rest.push((split_spaces(s), cmds.last())),
            None => rest,
        }
    }
}

/// The subcommand tree of the CLI: every command that has a path, at that
/// path, taken in the order of `CliCommand::all`. Refused with the first
/// command whose path is taken already.
pub fn command_tree() -> (res: Result<CommandTree, CliCommand>)
    ensures
        res is Ok,
        res matches Ok(t) ==> forall|c: CliCommand|
            #[trigger] spec_cmd_path(c) is Some ==> t@.dom().contains(
                split_spaces(spec_cmd_path(c)->0),
            ) && t@[split_spaces(spec_cmd_path(c)->0)] == Some(c),
        res is Ok <==> entries_fit(command_table(spec_all_commands())),
        res matches Ok(t) ==> t.wf() && t@ == built(command_table(spec_all_commands())),
        res matches Err(c) ==> exists|i: int|
            0 <= i < command_table(spec_all_commands()).len() && !entry_fits(
                command_table(spec_all_commands()),
                i,
            ) && (forall|j: int|
                0 <= j < i ==> #[trigger] entry_fits(command_table(spec_all_commands()), j))
                && c == command_table(spec_all_commands())[i].1,
{
    let cmds = CliCommand::all();
    let mut entries: Vec<(Vec<String>, CliCommand)> = Vec::new();
    let mut i: usize = 0;
    assert(cmds@.take(0) =~= Seq::<CliCommand>::empty());
    assert(entries_view(entries@) =~= command_table(cmds@.take(0)));
    while i < cmds.len()
        invariant
            i <= cmds@.len(),
            entries_view(entries@) == command_table(cmds@.take(i as int)),
        decreases cmds@.len() - i,
    {
        let cmd = cmds[i];
        assert(cmds@.take(i + 1).drop_last() =~= cmds@.take(i as int));
        assert(cmds@.take(i + 1).last() == cmd);
        match cmd_path(&cmd) {
            Some(path) => {
                let words = split_path(path);
                let ghost before = entries@;
                entries.push((words, cmd));
                assert(entries_view(entries@) =~= entries_view(before).push(
                    (split_spaces(path@), cmd),
                ));
            },
            None => {},
        }
        i = i + 1;
    }
    assert(cmds@.take(cmds@.len() as int) =~= cmds@);
    proof {
        lemma_command_tree_complete();
    }
    build_tree(&entries)
}

} // verus!
