//! The initial data that the API server installs at start: the groups,
//! mappers and OAuth clients named by its configuration. This module decides
//! which files are read, which operations are run in which order and with
//! which values, and which failures of those operations stop the start.

use vstd::prelude::*;
use vstd::set_lib::*;
use vstd::string::*;

use crate::outside::new_v4_uuid;

verus! {

/// A group to create, with its permissions.
pub struct InitialGroup<P> {
    pub name: String,
    pub permissions: P,
}

/// A mapper to add: its name, its rule, and how many times it may be used.
pub struct InitialMapper<R> {
    pub name: String,
    pub rule: R,
    pub max_activations: Option<u32>,
}

/// An OAuth client to create, with the redirect URI it is allowed.
pub struct InitialOAuthClient {
    pub id: u128,
    pub redirect_uri: String,
}

/// Everything the configuration asks to install.
pub struct InitialData<P, R> {
    pub groups: Vec<InitialGroup<P>>,
    pub mappers: Vec<InitialMapper<R>>,
    pub oauth_clients: Vec<InitialOAuthClient>,
}

/// A group the store holds already.
pub struct ExistingGroup {
    pub id: u128,
    pub name: String,
}

/// One store operation of the installation.
pub enum InitOp<P, R> {
    /// Create (or, for an id the store knows, keep) a group.
    CreateGroup { id: u128, name: String, permissions: P },
    /// Add a mapper, with how many times it has been used and may be used.
    AddMapper {
        id: u128,
        name: String,
        rule: R,
        activations: Option<i32>,
        max_activations: Option<i32>,
    },
    /// Create an OAuth client.
    CreateOAuthClient { id: u128 },
    /// Allow an OAuth client a redirect URI.
    AddOAuthRedirectUri { id: u128, redirect_uri: String },
}

/// How a store operation failed, as far as the installation cares: the record
/// exists already, or any other failure, carried as it came.
pub enum ResourceError<E> {
    Conflict,
    Other(E),
}

/// A record that exists already is no failure of the installation; any other
/// failure is handed back unchanged.
pub fn handle_unique_violation_error<E>(err: ResourceError<E>) -> (res: Result<(), ResourceError<E>>)
    ensures
        err is Conflict ==> res is Ok,
        err is Other ==> res == Err::<(), ResourceError<E>>(err),
{
    match err {
        ResourceError::Conflict => Ok(()),
        err => Err(err),
    }
}

/// The files given on top of the default ones: none where none are given.
pub open spec fn extra_files(extra: Option<Vec<String>>) -> Seq<String> {
    match extra {
        Some(v) => v@,
        None => Seq::empty(),
    }
}

/// Law of the initial data sources: giving no extra files and giving an
/// empty list of them name the same files, so both load the same data.
pub proof fn lemma_no_extra_files_same(v: Vec<String>)
    requires
        v@.len() == 0,
    ensures
        extra_files(None) == extra_files(Some(v)),
{
    assert(extra_files(Some(v)) =~= extra_files(None));
}

/// A source of initial data. Sources are layered in order: a key in a later
/// source overrides the same key in an earlier one.
#[derive(Debug, PartialEq, Eq)]
pub enum ConfigSource {
    /// A file, by the name it is looked up under; a missing file is an error
    /// only where it is `required`.
    File { name: String, required: bool },
    /// The process environment.
    Environment,
}

/// `s` is the optional file `name`.
pub open spec fn optional_file(s: ConfigSource, name: Seq<char>) -> bool {
    s matches ConfigSource::File { name: n, required } && n@ == name && !required
}

/// The sources of initial data, in the order they are layered: the files
/// `mappers.toml` and `support-api/mappers.toml`, then the given files, all of
/// them optional, and last the environment.
pub fn config_sources(extra: Option<Vec<String>>) -> (res: Vec<ConfigSource>)
    ensures
        res@.len() == 3 + extra_files(extra).len(),
        optional_file(res@[0], "mappers.toml"@),
        optional_file(res@[1], "support-api/mappers.toml"@),
        forall|i: int|
            0 <= i < extra_files(extra).len() ==> optional_file(
                #[trigger] res@[i + 2],
                extra_files(extra)[i]@,
            ),
        res@.last() is Environment,
{
    let mut res: Vec<ConfigSource> = Vec::new();
    res.push(ConfigSource::File { name: String::from_str("mappers.toml"), required: false });
    res.push(
        ConfigSource::File { name: String::from_str("support-api/mappers.toml"), required: false },
    );
    let files = match extra {
        Some(v) => v,
        None => Vec::new(),
    };
    let ghost given = files@;
    assert(given == extra_files(extra));
    let mut files = files;
    let ghost mut k: int = 0;
    while files.len() > 0
        invariant
            k + files@.len() == given.len(),
            0 <= k,
            files@ == given.skip(k),
            res@.len() == 2 + k,
            optional_file(res@[0], "mappers.toml"@),
            optional_file(res@[1], "support-api/mappers.toml"@),
            forall|i: int| 0 <= i < k ==> optional_file(#[trigger] res@[i + 2], given[i]@),
        decreases files@.len(),
    {
        let name = files.remove(0);
        assert(name == given[k]);
        res.push(ConfigSource::File { name, required: false });
        proof {
            k = k + 1;
        }
        assert(files@ =~= given.skip(k));
    }
    res.push(ConfigSource::Environment);
    res
}

/// The id of the first group the store holds under `name`, if any.
pub open spec fn first_group_id(existing: Seq<ExistingGroup>, name: Seq<char>) -> Option<u128>
    decreases existing.len(),
{
    if existing.len() == 0 {
        None
    } else if existing[0].name@ == name {
        Some(existing[0].id)
    } else {
        first_group_id(existing.drop_first(), name)
    }
}

/// The id of the first existing group named `name`, if any.
pub fn existing_group_id(existing: &Vec<ExistingGroup>, name: &String) -> (res: Option<u128>)
    ensures
        res == first_group_id(existing@, name@),
{
    let mut i: usize = 0;
    assert(existing@.skip(0) =~= existing@);
    while i < existing.len()
        invariant
            i <= existing@.len(),
            first_group_id(existing@, name@) == first_group_id(existing@.skip(i as int), name@),
        decreases existing@.len() - i,
    {
        assert(existing@.skip(i as int)[0] == existing@[i as int]);
        if existing[i].name == *name {
            return Some(existing[i].id);
        }
        assert(existing@.skip(i as int).drop_first() =~= existing@.skip(i + 1));
        i = i + 1;
    }
    None
}

/// The stored form of a mapper's activation limit: the store keeps an `i32`,
/// and a limit above `i32::MAX` wraps around to a negative number, as a cast
/// of the bits does.
pub open spec fn stored_limit(i: u32) -> int {
    if i <= 0x7fff_ffff {
        i as int
    } else {
        i as int - 0x1_0000_0000
    }
}

/// Converts a mapper's activation limit to the form the store keeps.
pub fn stored_max_activations(m: Option<u32>) -> (res: Option<i32>)
    ensures
        res is Some <==> m is Some,
        res matches Some(r) ==> r as int == stored_limit(m->0),
{
    match m {
        Some(i) => {
            assert((#[verifier::truncate] (i as i32)) as int == (if i <= 0x7fff_ffff {
                i as int
            } else {
                i as int - 0x1_0000_0000
            })) by (bit_vector);
            Some(#[verifier::truncate] (i as i32))
        },
        None => None,
    }
}


/// A version-4 UUID value: version field 4, variant field `0b10`.
pub open spec fn is_v4(id: u128) -> bool {
    (id >> 76u128) & 0xfu128 == 4u128 && (id >> 62u128) & 0x3u128 == 2u128
}

/// The `t`-th of the version-4 ids that stand in for a drawn id that is
/// taken already: version and variant fields set, `t` in the random bits
/// (its low 62 bits at the bottom, the next two above the variant field).
pub open spec fn spare_id(t: u128) -> u128 {
    0x0000_0000_0000_4000_8000_0000_0000_0000u128 | (t & 0x3FFF_FFFF_FFFF_FFFFu128) | ((t >> 62u128)
        << 64u128)
}

/// Spare ids are version-4 ids, and different numbers below 2^64 give
/// different spare ids.
proof fn lemma_spare_id(a: u128, b: u128)
    requires
        a < 0x1_0000_0000_0000_0000u128,
        b < 0x1_0000_0000_0000_0000u128,
    ensures
        is_v4(spare_id(a)),
        a != b ==> spare_id(a) != spare_id(b),
{
    assert(a < 0x1_0000_0000_0000_0000u128 ==> (((0x0000_0000_0000_4000_8000_0000_0000_0000u128 | (a
        & 0x3FFF_FFFF_FFFF_FFFFu128) | ((a >> 62u128) << 64u128)) >> 76u128) & 0xfu128 == 4u128
        && ((0x0000_0000_0000_4000_8000_0000_0000_0000u128 | (a & 0x3FFF_FFFF_FFFF_FFFFu128) | ((a
        >> 62u128) << 64u128)) >> 62u128) & 0x3u128 == 2u128)) by (bit_vector);
    assert(a < 0x1_0000_0000_0000_0000u128 && b < 0x1_0000_0000_0000_0000u128 && a != b ==> (
    0x0000_0000_0000_4000_8000_0000_0000_0000u128 | (a & 0x3FFF_FFFF_FFFF_FFFFu128) | ((a >> 62u128)
        << 64u128)) != (0x0000_0000_0000_4000_8000_0000_0000_0000u128 | (b
        & 0x3FFF_FFFF_FFFF_FFFFu128) | ((b >> 62u128) << 64u128))) by (bit_vector);
}

/// The spare id numbered `t`.
fn spare_id_of(t: u128) -> (res: u128)
    requires
        t < 0x1_0000_0000_0000_0000u128,
    ensures
        res == spare_id(t),
        is_v4(res),
{
    proof {
        lemma_spare_id(t, t);
    }
    0x0000_0000_0000_4000_8000_0000_0000_0000u128 | (t & 0x3FFF_FFFF_FFFF_FFFFu128) | ((t >> 62u128)
        << 64u128)
}

/// Whether `ids` holds `x`.
fn holds_id(ids: &Vec<u128>, x: u128) -> (res: bool)
    ensures
        res == ids@.contains(x),
{
    let mut i: usize = 0;
    while i < ids.len()
        invariant
            i <= ids@.len(),
            forall|k: int| 0 <= k < i ==> ids@[k] != x,
        decreases ids@.len() - i,
    {
        if ids[i] == x {
            assert(ids@[i as int] == x);
            return true;
        }
        i = i + 1;
    }
    false
}

/// More spare ids than `used` holds cannot all be in `used`: one of the
/// first `used.len() + 1` is not.
proof fn lemma_spare_id_unused(used: Seq<u128>)
    requires
        used.len() < 0x1_0000_0000_0000_0000u128,
    ensures
        exists|t: u128| t <= used.len() && !used.contains(#[trigger] spare_id(t)),
{
    if forall|t: u128| t <= used.len() ==> used.contains(#[trigger] spare_id(t)) {
        let n = used.len() as int;
        let r = set_int_range(0, n + 1);
        lemma_int_range(0, n + 1);
        let f = |t: int| spare_id(t as u128);
        assert forall|a: int, b: int|
            r.contains(a) && r.contains(b) && #[trigger] f(a) == #[trigger] f(b) implies a == b by {
            lemma_spare_id(a as u128, b as u128);
        }
        let s = r.map(f);
        lemma_map_size(r, s, f);
        used.lemma_cardinality_of_set();
        assert forall|y: u128| s.contains(y) implies used.to_set().contains(y) by {
            let t = choose|t: int| r.contains(t) && f(t) == y;
            assert(used.contains(spare_id(t as u128)));
        }
        lemma_len_subset(s, used.to_set());
    }
}

/// A version-4 id that `used` does not hold: one drawn by `Uuid::new_v4`,
/// or, should that one be taken already, the first spare id that is not.
fn fresh_v4_id(used: &Vec<u128>) -> (res: u128)
    ensures
        is_v4(res),
        !used@.contains(res),
{
    let drawn = new_v4_uuid();
    if !holds_id(used, drawn) {
        return drawn;
    }
    let n = used.len() as u128;
    let mut t: u128 = 0;
    while t <= n
        invariant
            n == used@.len(),
            n < 0x1_0000_0000_0000_0000u128,
            t <= n + 1,
            forall|s: u128| s < t ==> used@.contains(#[trigger] spare_id(s)),
        decreases n + 1 - t,
    {
        let c = spare_id_of(t);
        if !holds_id(used, c) {
            return c;
        }
        t = t + 1;
    }
    proof {
        lemma_spare_id_unused(used@);
    }
    drawn
}

/// The ids of the groups the store holds, in its order.
pub open spec fn existing_ids(existing: Seq<ExistingGroup>) -> Seq<u128> {
    existing.map_values(|e: ExistingGroup| e.id)
}

/// No two of the ids `fresh` are alike, and none of them is the id of a
/// group the store holds.
pub open spec fn fresh_ids_apart(fresh: Seq<u128>, existing: Seq<ExistingGroup>) -> bool {
    &&& forall|i: int, j: int|
        0 <= i < j < fresh.len() ==> #[trigger] fresh[i] != #[trigger] fresh[j]
    &&& forall|i: int, k: int|
        0 <= i < fresh.len() && 0 <= k < existing.len() ==> #[trigger] fresh[i]
            != (#[trigger] existing[k]).id
}

/// An id that neither the store's groups nor the fresh ids so far hold keeps
/// the fresh ids apart when it joins them.
proof fn lemma_fresh_id_apart(
    fresh: Seq<u128>,
    existing: Seq<ExistingGroup>,
    used: Seq<u128>,
    id: u128,
)
    requires
        fresh_ids_apart(fresh, existing),
        used == existing_ids(existing) + fresh,
        !used.contains(id),
    ensures
        fresh_ids_apart(fresh.push(id), existing),
{
    let e = existing.len() as int;
    assert forall|i: int| 0 <= i < fresh.len() implies fresh[i] != id by {
        assert(used[e + i] == fresh[i]);
    }
    assert forall|k: int| 0 <= k < existing.len() implies existing[k].id != id by {
        assert(used[k] == existing[k].id);
    }
    let f = fresh.push(id);
    assert forall|i: int, j: int| 0 <= i < j < f.len() implies #[trigger] f[i] != #[trigger] f[j] by {
        if j == fresh.len() {
            assert(f[i] == fresh[i]);
        } else {
            assert(f[i] == fresh[i] && f[j] == fresh[j]);
        }
    }
    assert forall|i: int, k: int|
        0 <= i < f.len() && 0 <= k < existing.len() implies #[trigger] f[i] != (
        #[trigger] existing[k]).id by {
        if i < fresh.len() {
            assert(f[i] == fresh[i]);
        }
    }
}

/// `op` creates group `g`: under the id of the first existing group of that
/// name where there is one, else under the fresh id `fresh`.
pub open spec fn creates_group<P, R>(
    op: InitOp<P, R>,
    g: InitialGroup<P>,
    existing: Seq<ExistingGroup>,
    fresh: u128,
) -> bool {
    match op {
        InitOp::CreateGroup { id, name, permissions } => {
            &&& name == g.name
            &&& permissions == g.permissions
            &&& id == match first_group_id(existing, g.name@) {
                Some(e) => e,
                None => fresh,
            }
        },
        _ => false,
    }
}

/// `op` adds mapper `m` under the fresh id `fresh`, not yet used, with its
/// limit as stored.
pub open spec fn adds_mapper<P, R>(op: InitOp<P, R>, m: InitialMapper<R>, fresh: u128) -> bool {
    match op {
        InitOp::AddMapper { id, name, rule, activations, max_activations } => {
            &&& id == fresh
            &&& name == m.name
            &&& rule == m.rule
            &&& activations is None
            &&& max_activations is Some <==> m.max_activations is Some
            &&& max_activations matches Some(r) ==> r as int == stored_limit(m.max_activations->0)
        },
        _ => false,
    }
}

/// How many of the first `k` groups the store holds no group of that name
/// for: each of them takes a fresh id.
pub open spec fn new_groups_before<P>(
    groups: Seq<InitialGroup<P>>,
    existing: Seq<ExistingGroup>,
    k: int,
) -> int
    decreases k,
{
    if k <= 0 {
        0
    } else {
        new_groups_before(groups, existing, k - 1) + if first_group_id(
            existing,
            groups[k - 1].name@,
        ) is None {
            1int
        } else {
            0int
        }
    }
}

/// The number of fresh ids installing `d` takes: one for each group the
/// store holds none of that name for, and one for each mapper.
pub open spec fn fresh_ids_needed<P, R>(d: InitialData<P, R>, existing: Seq<ExistingGroup>) -> int {
    new_groups_before(d.groups@, existing, d.groups@.len() as int) + d.mappers@.len()
}

/// `ops` are the store operations that install `d` over the groups
/// `existing`, with the fresh ids `fresh` taken in order: each group (the
/// groups the store holds none of that name for take the fresh ids in turn),
/// then each mapper (taking the fresh ids after those), then for each OAuth
/// client its creation and its redirect URI.
pub open spec fn planned<P, R>(
    ops: Seq<InitOp<P, R>>,
    d: InitialData<P, R>,
    existing: Seq<ExistingGroup>,
    fresh: Seq<u128>,
) -> bool {
    let g = d.groups@;
    let m = d.mappers@;
    let c = d.oauth_clients@;
    let n = new_groups_before(g, existing, g.len() as int);
    &&& ops.len() == g.len() + m.len() + 2 * c.len()
    &&& forall|k: int|
        0 <= k < g.len() ==> creates_group(
            #[trigger] ops[k],
            g[k],
            existing,
            fresh[new_groups_before(g, existing, k)],
        )
    &&& forall|k: int| 0 <= k < m.len() ==> adds_mapper(#[trigger] ops[g.len() + k], m[k], fresh[n + k])
    &&& forall|k: int|
        0 <= k < c.len() ==> creates_client(
            #[trigger] ops[g.len() + m.len() + 2 * k],
            ops[g.len() + m.len() + 2 * k + 1],
            c[k],
        )
}

/// The count of new groups grows by at most one per group and never
/// shrinks.
proof fn lemma_new_groups_grow<P>(groups: Seq<InitialGroup<P>>, existing: Seq<ExistingGroup>, k: int, l: int)
    requires
        0 <= k <= l,
    ensures
        0 <= new_groups_before(groups, existing, k) <= new_groups_before(groups, existing, l),
        new_groups_before(groups, existing, k) <= k,
    decreases l,
{
    if l > k {
        lemma_new_groups_grow(groups, existing, k, l - 1);
    } else if k > 0 {
        lemma_new_groups_grow(groups, existing, k - 1, k - 1);
    }
}

/// `a` and `b` create OAuth client `c` and then allow it its redirect URI.
pub open spec fn creates_client<P, R>(a: InitOp<P, R>, b: InitOp<P, R>, c: InitialOAuthClient) -> bool {
    &&& a == InitOp::<P, R>::CreateOAuthClient { id: c.id }
    &&& b == InitOp::<P, R>::AddOAuthRedirectUri { id: c.id, redirect_uri: c.redirect_uri }
}

impl<P, R> InitialData<P, R> {
    /// The store operations that install this data over the groups
    /// `existing`, with the fresh ids `fresh` taken in order (see `planned`).
    pub fn plan_with_ids(self, existing: &Vec<ExistingGroup>, fresh: &Vec<u128>) -> (res: Vec<
        InitOp<P, R>,
    >)
        requires
            fresh@.len() == fresh_ids_needed(self, existing@),
        ensures
            planned(res@, self, existing@, fresh@),
    {
        let InitialData { mut groups, mut mappers, mut oauth_clients } = self;
        let ghost g0 = groups@;
        let ghost m0 = mappers@;
        let ghost c0 = oauth_clients@;
        let ghost n = new_groups_before(g0, existing@, g0.len() as int);
        let mut ops: Vec<InitOp<P, R>> = Vec::new();
        let fresh_len = fresh.len();
        let mut j: usize = 0;
        while groups.len() > 0
            invariant
                ops@.len() + groups@.len() == g0.len(),
                groups@ == g0.skip(ops@.len() as int),
                j == new_groups_before(g0, existing@, ops@.len() as int),
                fresh@.len() == n + m0.len(),
                fresh_len == fresh@.len(),
                n == new_groups_before(g0, existing@, g0.len() as int),
                forall|k: int|
                    0 <= k < ops@.len() ==> creates_group(
                        #[trigger] ops@[k],
                        g0[k],
                        existing@,
                        fresh@[new_groups_before(g0, existing@, k)],
                    ),
            decreases groups@.len(),
        {
            let ghost k = ops@.len() as int;
            let g = groups.remove(0);
            assert(g == g0[k]);
            proof {
                lemma_new_groups_grow(g0, existing@, k + 1, g0.len() as int);
            }
            let id = match existing_group_id(existing, &g.name) {
                Some(id) => id,
                None => {
                    let id = fresh[j];
                    j = j + 1;
                    id
                },
            };
            ops.push(InitOp::CreateGroup { id, name: g.name, permissions: g.permissions });
            assert(groups@ =~= g0.skip(ops@.len() as int));
        }
        let ghost g_len = ops@.len();
        while mappers.len() > 0
            invariant
                g_len == g0.len(),
                ops@.len() == g_len + (m0.len() - mappers@.len()),
                mappers@.len() <= m0.len(),
                mappers@ == m0.skip(m0.len() - mappers@.len()),
                j == n + (m0.len() - mappers@.len()),
                fresh@.len() == n + m0.len(),
                fresh_len == fresh@.len(),
                forall|k: int|
                    0 <= k < g0.len() ==> creates_group(
                        #[trigger] ops@[k],
                        g0[k],
                        existing@,
                        fresh@[new_groups_before(g0, existing@, k)],
                    ),
                forall|k: int|
                    0 <= k < m0.len() - mappers@.len() ==> adds_mapper(
                        #[trigger] ops@[g_len + k],
                        m0[k],
                        fresh@[n + k],
                    ),
            decreases mappers@.len(),
        {
            let ghost k = m0.len() - mappers@.len();
            let m = mappers.remove(0);
            assert(m == m0[k]);
            let id = fresh[j];
            j = j + 1;
            let max_activations = stored_max_activations(m.max_activations);
            ops.push(
                InitOp::AddMapper { id, name: m.name, rule: m.rule, activations: None, max_activations },
            );
            assert(mappers@ =~= m0.skip(m0.len() - mappers@.len()));
        }
        let ghost gm_len = ops@.len();
        while oauth_clients.len() > 0
            invariant
                g_len == g0.len(),
                gm_len == g0.len() + m0.len(),
                oauth_clients@.len() <= c0.len(),
                ops@.len() == gm_len + 2 * (c0.len() - oauth_clients@.len()),
                oauth_clients@ == c0.skip(c0.len() - oauth_clients@.len()),
                forall|k: int|
                    0 <= k < g0.len() ==> creates_group(
                        #[trigger] ops@[k],
                        g0[k],
                        existing@,
                        fresh@[new_groups_before(g0, existing@, k)],
                    ),
                forall|k: int|
                    0 <= k < m0.len() ==> adds_mapper(#[trigger] ops@[g_len + k], m0[k], fresh@[n + k]),
                forall|k: int|
                    0 <= k < c0.len() - oauth_clients@.len() ==> creates_client(
                        #[trigger] ops@[gm_len + 2 * k],
                        ops@[gm_len + 2 * k + 1],
                        c0[k],
                    ),
            decreases oauth_clients@.len(),
        {
            let ghost k = c0.len() - oauth_clients@.len();
            let c = oauth_clients.remove(0);
            assert(c == c0[k]);
            ops.push(InitOp::CreateOAuthClient { id: c.id });
            ops.push(InitOp::AddOAuthRedirectUri { id: c.id, redirect_uri: c.redirect_uri });
            assert(oauth_clients@ =~= c0.skip(c0.len() - oauth_clients@.len()));
        }
        ops
    }

    /// The store operations that install this data over the groups
    /// `existing`: as `plan_with_ids`, with a fresh id for each group the
    /// store holds none of that name for and for each mapper, in that order.
    /// Each fresh id is drawn by `Uuid::new_v4`; one that is taken already,
    /// by a stored group or by an earlier fresh id, is replaced by a spare
    /// one, so that no two records share an id.
    pub fn plan(self, existing: &Vec<ExistingGroup>) -> (res: Vec<InitOp<P, R>>)
        ensures
            exists|fresh: Seq<u128>|
                fresh.len() == fresh_ids_needed(self, existing@) && (forall|i: int|
                    0 <= i < fresh.len() ==> is_v4(#[trigger] fresh[i])) && fresh_ids_apart(
                    fresh,
                    existing@,
                ) && planned(res@, self, existing@, fresh),
            forall|a: int, b: int|
                0 <= a < b < self.mappers@.len() ==> (#[trigger] res@[self.groups@.len()
                    + a])->AddMapper_id != (#[trigger] res@[self.groups@.len() + b])->AddMapper_id,
            forall|a: int, j: int|
                0 <= a < self.mappers@.len() && 0 <= j < self.groups@.len() ==> (#[trigger] res@[
                self.groups@.len() + a])->AddMapper_id != (#[trigger] res@[j])->CreateGroup_id,
            forall|j1: int, j2: int|
                0 <= j1 < j2 < self.groups@.len() && first_group_id(
                    existing@,
                    self.groups@[j1].name@,
                ) is None && first_group_id(existing@, self.groups@[j2].name@) is None ==> (
                #[trigger] res@[j1])->CreateGroup_id != (#[trigger] res@[j2])->CreateGroup_id,
            forall|j: int, k: int|
                0 <= j < self.groups@.len() && first_group_id(existing@, self.groups@[j].name@) is None
                    && 0 <= k < existing@.len() ==> (#[trigger] res@[j])->CreateGroup_id != (
                #[trigger] existing@[k]).id,
    {
        let ghost d = self;
        let mut used: Vec<u128> = Vec::new();
        let mut k: usize = 0;
        while k < existing.len()
            invariant
                k <= existing@.len(),
                used@ == existing_ids(existing@.take(k as int)),
            decreases existing@.len() - k,
        {
            used.push(existing[k].id);
            k = k + 1;
            assert(used@ =~= existing_ids(existing@.take(k as int)));
        }
        assert(existing@.take(existing@.len() as int) =~= existing@);
        let mut fresh: Vec<u128> = Vec::new();
        assert(used@ =~= existing_ids(existing@) + fresh@);
        let mut k: usize = 0;
        while k < self.groups.len()
            invariant
                k <= self.groups@.len(),
                fresh@.len() == new_groups_before(self.groups@, existing@, k as int),
                forall|i: int| 0 <= i < fresh@.len() ==> is_v4(#[trigger] fresh@[i]),
                fresh_ids_apart(fresh@, existing@),
                used@ == existing_ids(existing@) + fresh@,
            decreases self.groups@.len() - k,
        {
            if existing_group_id(existing, &self.groups[k].name).is_none() {
                let id = fresh_v4_id(&used);
                proof {
                    lemma_fresh_id_apart(fresh@, existing@, used@, id);
                }
                fresh.push(id);
                used.push(id);
                assert(used@ =~= existing_ids(existing@) + fresh@);
            }
            k = k + 1;
        }
        let mut k: usize = 0;
        while k < self.mappers.len()
            invariant
                k <= self.mappers@.len(),
                fresh@.len() == new_groups_before(self.groups@, existing@, self.groups@.len() as int)
                    + k,
                forall|i: int| 0 <= i < fresh@.len() ==> is_v4(#[trigger] fresh@[i]),
                fresh_ids_apart(fresh@, existing@),
                used@ == existing_ids(existing@) + fresh@,
            decreases self.mappers@.len() - k,
        {
            let id = fresh_v4_id(&used);
            proof {
                lemma_fresh_id_apart(fresh@, existing@, used@, id);
            }
            fresh.push(id);
            used.push(id);
            assert(used@ =~= existing_ids(existing@) + fresh@);
            k = k + 1;
        }
        let res = self.plan_with_ids(existing, &fresh);
        proof {
            lemma_planned_ids_distinct(res@, d, existing@, fresh@);
        }
        res
    }
}

/// Law of the plan's ids: where the fresh ids are apart, every new record has
/// an id of its own. No two mappers share an id, no mapper shares one with a
/// group, no two groups the store holds none of that name for share one, and
/// such a group takes no id of a group the store holds.
pub proof fn lemma_planned_ids_distinct<P, R>(
    ops: Seq<InitOp<P, R>>,
    d: InitialData<P, R>,
    existing: Seq<ExistingGroup>,
    fresh: Seq<u128>,
)
    requires
        planned(ops, d, existing, fresh),
        fresh.len() == fresh_ids_needed(d, existing),
        fresh_ids_apart(fresh, existing),
    ensures
        forall|a: int, b: int|
            0 <= a < b < d.mappers@.len() ==> (#[trigger] ops[d.groups@.len() + a])->AddMapper_id
                != (#[trigger] ops[d.groups@.len() + b])->AddMapper_id,
        forall|a: int, j: int|
            0 <= a < d.mappers@.len() && 0 <= j < d.groups@.len() ==> (#[trigger] ops[d.groups@.len()
                + a])->AddMapper_id != (#[trigger] ops[j])->CreateGroup_id,
        forall|j1: int, j2: int|
            0 <= j1 < j2 < d.groups@.len() && first_group_id(existing, d.groups@[j1].name@) is None
                && first_group_id(existing, d.groups@[j2].name@) is None ==> (#[trigger] ops[j1])->CreateGroup_id
                != (#[trigger] ops[j2])->CreateGroup_id,
        forall|j: int, k: int|
            0 <= j < d.groups@.len() && first_group_id(existing, d.groups@[j].name@) is None && 0 <= k
                < existing.len() ==> (#[trigger] ops[j])->CreateGroup_id != (#[trigger] existing[k]).id,
{
    let g = d.groups@;
    let m = d.mappers@;
    let n = new_groups_before(g, existing, g.len() as int);
    assert forall|a: int, b: int| 0 <= a < b < m.len() implies (#[trigger] ops[g.len() + a])->AddMapper_id
        != (#[trigger] ops[g.len() + b])->AddMapper_id by {
        assert(adds_mapper(ops[g.len() + a], m[a], fresh[n + a]));
        assert(adds_mapper(ops[g.len() + b], m[b], fresh[n + b]));
        lemma_new_groups_grow(g, existing, 0, g.len() as int);
    }
    assert forall|a: int, j: int| 0 <= a < m.len() && 0 <= j < g.len() implies (#[trigger] ops[g.len()
        + a])->AddMapper_id != (#[trigger] ops[j])->CreateGroup_id by {
        assert(adds_mapper(ops[g.len() + a], m[a], fresh[n + a]));
        assert(creates_group(ops[j], g[j], existing, fresh[new_groups_before(g, existing, j)]));
        lemma_new_groups_grow(g, existing, 0, g.len() as int);
        lemma_new_groups_grow(g, existing, j + 1, g.len() as int);
        lemma_first_group_id_found(existing, g[j].name@);
        if first_group_id(existing, g[j].name@) is Some {
            let k = choose|k: int|
                0 <= k < existing.len() && (#[trigger] existing[k]).name@ == g[j].name@ && existing[k].id
                    == first_group_id(existing, g[j].name@)->0;
            assert(fresh[n + a] != existing[k].id);
            assert(ops[j]->CreateGroup_id == existing[k].id);
        } else {
            let i = new_groups_before(g, existing, j);
            lemma_new_groups_grow(g, existing, j, j + 1);
            assert(new_groups_before(g, existing, j + 1) == i + 1);
            assert(0 <= i < n);
            assert(fresh[i] != fresh[n + a]);
            assert(ops[j]->CreateGroup_id == fresh[i]);
        }
        assert(ops[g.len() + a]->AddMapper_id == fresh[n + a]);
    }
    assert forall|j1: int, j2: int|
        0 <= j1 < j2 < g.len() && first_group_id(existing, g[j1].name@) is None && first_group_id(
            existing,
            g[j2].name@,
        ) is None implies (#[trigger] ops[j1])->CreateGroup_id != (#[trigger] ops[j2])->CreateGroup_id by {
        assert(creates_group(ops[j1], g[j1], existing, fresh[new_groups_before(g, existing, j1)]));
        assert(creates_group(ops[j2], g[j2], existing, fresh[new_groups_before(g, existing, j2)]));
        lemma_new_groups_grow(g, existing, j1 + 1, j2);
        lemma_new_groups_grow(g, existing, j2 + 1, g.len() as int);
        lemma_new_groups_grow(g, existing, 0, j1);
    }
    assert forall|j: int, k: int|
        0 <= j < g.len() && first_group_id(existing, g[j].name@) is None && 0 <= k
            < existing.len() implies (#[trigger] ops[j])->CreateGroup_id != (#[trigger] existing[k]).id by {
        assert(creates_group(ops[j], g[j], existing, fresh[new_groups_before(g, existing, j)]));
        lemma_new_groups_grow(g, existing, j + 1, g.len() as int);
        lemma_new_groups_grow(g, existing, 0, j);
    }
}

/// The first group of a name after the store lists one more group anywhere
/// in its list: the first one before, unless the new group comes earlier and
/// has the name; where there was none, the new group if it has the name.
proof fn lemma_first_group_id_insert(
    existing: Seq<ExistingGroup>,
    i: int,
    e: ExistingGroup,
    name: Seq<char>,
)
    requires
        0 <= i <= existing.len(),
    ensures
        first_group_id(existing.insert(i, e), name) == first_group_id(existing, name) || (e.name@
            == name && first_group_id(existing.insert(i, e), name) == Some(e.id)),
        first_group_id(existing, name) is None ==> first_group_id(existing.insert(i, e), name) == (
        if e.name@ == name {
            Some(e.id)
        } else {
            None
        }),
    decreases existing.len(),
{
    let s = existing.insert(i, e);
    if i == 0 {
        assert(s[0] == e);
        assert(s.drop_first() =~= existing);
    } else {
        assert(s[0] == existing[0]);
        assert(s.drop_first() =~= existing.drop_first().insert(i - 1, e));
        lemma_first_group_id_insert(existing.drop_first(), i - 1, e, name);
    }
}

/// The first group of a name, where there is one, is a group of that name
/// in the list; and there is one exactly when the list holds that name.
proof fn lemma_first_group_id_found(existing: Seq<ExistingGroup>, name: Seq<char>)
    ensures
        first_group_id(existing, name) is Some <==> exists|k: int|
            0 <= k < existing.len() && (#[trigger] existing[k]).name@ == name,
        first_group_id(existing, name) matches Some(x) ==> exists|k: int|
            0 <= k < existing.len() && (#[trigger] existing[k]).name@ == name && existing[k].id
                == x,
    decreases existing.len(),
{
    if existing.len() > 0 {
        let t = existing.drop_first();
        lemma_first_group_id_found(t, name);
        if first_group_id(t, name) is Some {
            let k = choose|k: int| 0 <= k < t.len() && (#[trigger] t[k]).name@ == name && t[k].id
                == first_group_id(t, name)->0;
            assert(existing[k + 1] == t[k]);
        }
        if exists|k: int| 0 <= k < existing.len() && (#[trigger] existing[k]).name@ == name {
            let k = choose|k: int| 0 <= k < existing.len() && (#[trigger] existing[k]).name@ == name;
            if k > 0 {
                assert(t[k - 1] == existing[k]);
            }
        }
        if existing[0].name@ != name && exists|k: int| 0 <= k < t.len() && (#[trigger] t[k]).name@ == name {
            let k = choose|k: int| 0 <= k < t.len() && (#[trigger] t[k]).name@ == name;
            assert(existing[k + 1] == t[k]);
        }
    }
}

/// Law of the installation across runs: once the store lists the group that
/// one run created (or kept) for `g` under its name, at any place in its
/// list and with the groups it held before in their order, the next run's
/// plan creates `g` under that same id, so that a second run adds no second
/// group of that name.
pub proof fn lemma_next_plan_keeps_group_id<P, R>(
    g: InitialGroup<P>,
    first: InitOp<P, R>,
    first_fresh: u128,
    next: InitOp<P, R>,
    next_fresh: u128,
    before: Seq<ExistingGroup>,
    i: int,
    stored: ExistingGroup,
)
    requires
        creates_group(first, g, before, first_fresh),
        0 <= i <= before.len(),
        stored.name@ == g.name@,
        stored.id == first->CreateGroup_id,
        creates_group(next, g, before.insert(i, stored), next_fresh),
    ensures
        next->CreateGroup_id == first->CreateGroup_id,
{
    lemma_first_group_id_insert(before, i, stored, g.name@);
}

/// Law of the installation across runs, whatever order the store lists its
/// groups in: where every group the store lists under `g`'s name has the id
/// one run created (or kept) `g` under, and it lists at least one, the next
/// run's plan creates `g` under that same id.
pub proof fn lemma_next_plan_keeps_unique_group_id<P, R>(
    g: InitialGroup<P>,
    first: InitOp<P, R>,
    first_fresh: u128,
    next: InitOp<P, R>,
    next_fresh: u128,
    before: Seq<ExistingGroup>,
    after: Seq<ExistingGroup>,
)
    requires
        creates_group(first, g, before, first_fresh),
        exists|k: int| 0 <= k < after.len() && (#[trigger] after[k]).name@ == g.name@,
        forall|k: int|
            0 <= k < after.len() && (#[trigger] after[k]).name@ == g.name@ ==> after[k].id
                == first->CreateGroup_id,
        creates_group(next, g, after, next_fresh),
    ensures
        next->CreateGroup_id == first->CreateGroup_id,
{
    lemma_first_group_id_found(after, g.name@);
}

/// Whether a store operation's outcome lets the installation go on: it
/// succeeded, or the record existed already.
pub open spec fn settles<T, E>(outcome: Result<T, ResourceError<E>>) -> bool {
    match outcome {
        Ok(_) => true,
        Err(ResourceError::Conflict) => true,
        Err(ResourceError::Other(_)) => false,
    }
}

/// What the installation does next.
pub enum InitAction<P, R, E> {
    /// Run this store operation and report its outcome.
    Run(InitOp<P, R>),
    /// Every operation has run; the installation succeeded.
    Done,
    /// An operation failed with this error (other than that its record
    /// exists already); the installation stops.
    Failed(E),
}

/// One step of a run over the operations still to run, `before`, where
/// `fails` says that the outcome reported for the operation run last does not
/// settle: a failure stops the run, leaving nothing to run; otherwise the
/// first operation left is handed out, or the run is done when none is left.
pub open spec fn step_taken<P, R, E>(
    before: Seq<InitOp<P, R>>,
    fails: bool,
    action: InitAction<P, R, E>,
    after: Seq<InitOp<P, R>>,
) -> bool {
    if fails {
        action is Failed && after == Seq::<InitOp<P, R>>::empty()
    } else if before.len() == 0 {
        action is Done && after == before
    } else {
        action == InitAction::<P, R, E>::Run(before[0]) && after == before.drop_first()
    }
}

/// A running installation: the store operations still to run, in order.
pub struct InitRun<P, R> {
    /// The operations still to run, last one first.
    pending: Vec<InitOp<P, R>>,
}

impl<P, R> InitRun<P, R> {
    /// The operations still to run, in the order they run.
    pub closed spec fn remaining(&self) -> Seq<InitOp<P, R>> {
        self.pending@.reverse()
    }

    /// A run of the operations of `plan`, none of them run yet.
    pub fn new(plan: Vec<InitOp<P, R>>) -> (res: InitRun<P, R>)
        ensures
            res.remaining() == plan@,
    {
        let mut plan = plan;
        let ghost p = plan@;
        let mut pending: Vec<InitOp<P, R>> = Vec::new();
        while plan.len() > 0
            invariant
                pending@.len() + plan@.len() == p.len(),
                plan@ == p.take(plan@.len() as int),
                pending@ == p.skip(plan@.len() as int).reverse(),
            decreases plan@.len(),
        {
            let op = plan.pop().unwrap();
            pending.push(op);
            assert(plan@ =~= p.take(plan@.len() as int));
            assert(pending@ =~= p.skip(plan@.len() as int).reverse());
        }
        assert(p.skip(0) =~= p);
        InitRun { pending }
    }

    /// The next step of the installation, given the outcome of the operation
    /// run last (`None` at the start). An outcome that does not settle stops
    /// the run with its error, and no operation is run after it; otherwise the
    /// next operation is handed out, or the run is done when none is left.
    pub fn step<T, E>(&mut self, outcome: Option<Result<T, ResourceError<E>>>) -> (res: InitAction<
        P,
        R,
        E,
    >)
        ensures
            step_taken(
                old(self).remaining(),
                outcome matches Some(o) && !settles(o),
                res,
                final(self).remaining(),
            ),
            outcome matches Some(o) ==> (!settles(o) ==> res == InitAction::<P, R, E>::Failed(
                o->Err_0->Other_0,
            )),
    {
        if let Some(Err(err)) = outcome {
            if let Err(ResourceError::Other(e)) = handle_unique_violation_error(err) {
                self.pending = Vec::new();
                assert(self.pending@.reverse() =~= Seq::<InitOp<P, R>>::empty());
                return InitAction::Failed(e);
            }
        }
        let ghost before = self.pending@;
        match self.pending.pop() {
            Some(op) => {
                assert(before.reverse()[0] == op);
                assert(self.pending@.reverse() =~= before.reverse().drop_first());
                InitAction::Run(op)
            },
            None => InitAction::Done,
        }
    }
}

/// The operations a run hands out, in order, when the outcome of the `i`-th
/// operation it runs settles exactly where `settled[i]` holds: each operation
/// is run, and the run goes on after it only if its outcome settles.
pub open spec fn ops_run<P, R>(ops: Seq<InitOp<P, R>>, settled: Seq<bool>) -> Seq<InitOp<P, R>>
    decreases ops.len(),
{
    if ops.len() == 0 {
        Seq::empty()
    } else if settled.len() > 0 && settled[0] {
        seq![ops[0]] + ops_run(ops.drop_first(), settled.drop_first())
    } else {
        seq![ops[0]]
    }
}

/// The index of the first outcome that does not settle, or `n` where the
/// first `n` all settle.
pub open spec fn first_failure(settled: Seq<bool>, n: int) -> int
    decreases n,
{
    if n <= 0 {
        0
    } else if settled.len() > 0 && !settled[0] {
        0
    } else {
        1 + first_failure(settled.drop_first(), n - 1)
    }
}

/// Law of the installation: where each operation's outcome is reported,
/// the run runs the operations in plan order up to and including the first
/// one whose outcome does not settle, and none after it; it ends with
/// success exactly when every operation's outcome settles.
pub proof fn lemma_run_stops_at_first_failure<P, R>(ops: Seq<InitOp<P, R>>, settled: Seq<bool>)
    requires
        settled.len() >= ops.len(),
    ensures
        0 <= first_failure(settled, ops.len() as int) <= ops.len(),
        forall|i: int| 0 <= i < first_failure(settled, ops.len() as int) ==> #[trigger] settled[i],
        first_failure(settled, ops.len() as int) < ops.len() ==> !settled[first_failure(
            settled,
            ops.len() as int,
        )],
        first_failure(settled, ops.len() as int) == ops.len() <==> forall|i: int|
            0 <= i < ops.len() ==> #[trigger] settled[i],
        first_failure(settled, ops.len() as int) < ops.len() ==> ops_run(ops, settled) == ops.take(
            first_failure(settled, ops.len() as int) + 1,
        ),
        first_failure(settled, ops.len() as int) == ops.len() ==> ops_run(ops, settled) == ops,
    decreases ops.len(),
{
    let n = ops.len() as int;
    if n > 0 {
        let t = settled.drop_first();
        lemma_run_stops_at_first_failure(ops.drop_first(), t);
        let k = first_failure(t, n - 1);
        if settled[0] {
            assert(first_failure(settled, n) == 1 + k);
            assert forall|i: int| 0 <= i < 1 + k implies #[trigger] settled[i] by {
                if i > 0 {
                    assert(settled[i] == t[i - 1]);
                }
            }
            assert(ops_run(ops, settled) == seq![ops[0]] + ops_run(ops.drop_first(), t));
            if k < n - 1 {
                assert(settled[k + 1] == t[k]);
                assert(seq![ops[0]] + ops.drop_first().take(k + 1) =~= ops.take(k + 2));
            } else {
                assert forall|i: int| 0 <= i < n implies #[trigger] settled[i] by {
                    if i > 0 {
                        assert(settled[i] == t[i - 1]);
                    }
                }
                assert(seq![ops[0]] + ops.drop_first() =~= ops);
            }
        } else {
            assert(first_failure(settled, n) == 0);
            assert(ops_run(ops, settled) =~= ops.take(1));
        }
    } else {
        assert(ops_run(ops, settled) =~= ops);
    }
}

/// `actions` are the answers of successive steps of one run, the run having
/// `remaining[k]` still to run before step `k`: the first step reports no
/// outcome, step `k + 1` reports the outcome of the operation step `k` handed
/// out, which settles exactly where `settled[k]` holds, and the steps go on
/// until one answers other than `Run`.
pub open spec fn is_run_trace<P, R, E>(
    remaining: Seq<Seq<InitOp<P, R>>>,
    actions: Seq<InitAction<P, R, E>>,
    settled: Seq<bool>,
) -> bool {
    &&& actions.len() > 0
    &&& remaining.len() == actions.len() + 1
    &&& settled.len() + 1 >= actions.len()
    &&& forall|k: int|
        0 <= k < actions.len() ==> step_taken(
            #[trigger] remaining[k],
            k > 0 && !settled[k - 1],
            actions[k],
            remaining[k + 1],
        )
    &&& forall|k: int| 0 <= k < actions.len() - 1 ==> #[trigger] actions[k] is Run
    &&& !(actions.last() is Run)
}

/// A run trace after a first operation whose outcome settles goes on as a
/// run trace of the operations after it.
proof fn lemma_run_trace_tail<P, R, E>(
    remaining: Seq<Seq<InitOp<P, R>>>,
    actions: Seq<InitAction<P, R, E>>,
    settled: Seq<bool>,
)
    requires
        is_run_trace(remaining, actions, settled),
        actions.len() > 1,
        settled.len() > 0,
        settled[0],
    ensures
        is_run_trace(remaining.drop_first(), actions.drop_first(), settled.drop_first()),
{
    let rem2 = remaining.drop_first();
    let acts2 = actions.drop_first();
    let set2 = settled.drop_first();
    assert forall|k: int| 0 <= k < acts2.len() implies step_taken(
        #[trigger] rem2[k],
        k > 0 && !set2[k - 1],
        acts2[k],
        rem2[k + 1],
    ) by {
        assert(step_taken(remaining[k + 1], !settled[k], actions[k + 1], remaining[k + 2]));
        assert(rem2[k] == remaining[k + 1]);
        assert(rem2[k + 1] == remaining[k + 2]);
        assert(acts2[k] == actions[k + 1]);
        if k > 0 {
            assert(set2[k - 1] == settled[k]);
        }
    }
    assert forall|k: int| 0 <= k < acts2.len() - 1 implies #[trigger] acts2[k] is Run by {
        assert(actions[k + 1] is Run);
    }
    assert(acts2.last() == actions.last());
}

/// Law of the installation run: stepping a run to its end hands out exactly
/// `ops_run` of the operations it started with, one per step and in order,
/// and the run ends `Done` exactly when every operation's outcome settled
/// (else `Failed`, right after the first one that did not).
pub proof fn lemma_run_trace<P, R, E>(
    remaining: Seq<Seq<InitOp<P, R>>>,
    actions: Seq<InitAction<P, R, E>>,
    settled: Seq<bool>,
)
    requires
        is_run_trace(remaining, actions, settled),
        settled.len() >= remaining[0].len(),
    ensures
        actions.len() - 1 == ops_run(remaining[0], settled).len(),
        forall|k: int|
            0 <= k < actions.len() - 1 ==> #[trigger] actions[k] == InitAction::<P, R, E>::Run(
                ops_run(remaining[0], settled)[k],
            ),
        actions.last() is Done <==> first_failure(settled, remaining[0].len() as int)
            == remaining[0].len(),
        actions.last() is Failed <==> first_failure(settled, remaining[0].len() as int)
            < remaining[0].len(),
    decreases actions.len(),
{
    let r = remaining[0];
    assert(step_taken(remaining[0], false, actions[0], remaining[1]));
    if actions.len() == 1 {
        assert(r.len() == 0);
        assert(ops_run(r, settled) =~= Seq::<InitOp<P, R>>::empty());
    } else {
        assert(actions[0] is Run);
        assert(r.len() > 0);
        assert(remaining[1] == r.drop_first());
        assert(step_taken(remaining[1], !settled[0], actions[1], remaining[2]));
        if !settled[0] {
            assert(actions[1] is Failed);
            assert(actions.len() == 2);
            assert(ops_run(r, settled) =~= seq![r[0]]);
            assert(first_failure(settled, r.len() as int) == 0);
        } else {
            let rem2 = remaining.drop_first();
            let acts2 = actions.drop_first();
            let set2 = settled.drop_first();
            lemma_run_trace_tail(remaining, actions, settled);
            lemma_run_trace(rem2, acts2, set2);
            assert(rem2[0] == r.drop_first());
            assert(ops_run(r, settled) == seq![r[0]] + ops_run(r.drop_first(), set2));
            assert(first_failure(settled, r.len() as int) == 1 + first_failure(set2, r.len() - 1));
            assert(acts2.last() == actions.last());
            assert forall|k: int| 0 <= k < actions.len() - 1 implies #[trigger] actions[k]
                == InitAction::<P, R, E>::Run(ops_run(r, settled)[k]) by {
                if k > 0 {
                    assert(actions[k] == acts2[k - 1]);
                }
            }
        }
    }
}

/// Law of a second installation of the same data. A first run installed `d`
/// with `first_ops`. The store now lists, under the name of each group of
/// `d`, at least one group and only groups with the id the first run used for
/// it, and it answers each operation of the second run with success or with
/// a conflict (the record exists already). Then the second run, planned over
/// what the store lists, hands out all its operations in order and ends
/// `Done`, and it creates every group under the id the first run used.
pub proof fn lemma_second_run<P, R, E>(
    d: InitialData<P, R>,
    before: Seq<ExistingGroup>,
    first_fresh: Seq<u128>,
    first_ops: Seq<InitOp<P, R>>,
    after: Seq<ExistingGroup>,
    next_fresh: Seq<u128>,
    remaining: Seq<Seq<InitOp<P, R>>>,
    actions: Seq<InitAction<P, R, E>>,
    settled: Seq<bool>,
)
    requires
        planned(first_ops, d, before, first_fresh),
        forall|k: int|
            0 <= k < d.groups@.len() ==> exists|i: int|
                0 <= i < after.len() && (#[trigger] after[i]).name@ == (#[trigger] d.groups@[k]).name@,
        forall|k: int, i: int|
            0 <= k < d.groups@.len() && 0 <= i < after.len() && (#[trigger] after[i]).name@ == (
            #[trigger] d.groups@[k]).name@ ==> after[i].id == first_ops[k]->CreateGroup_id,
        planned(remaining[0], d, after, next_fresh),
        is_run_trace(remaining, actions, settled),
        settled.len() >= remaining[0].len(),
        forall|i: int| 0 <= i < remaining[0].len() ==> #[trigger] settled[i],
    ensures
        actions.last() is Done,
        actions.len() - 1 == remaining[0].len(),
        forall|k: int|
            0 <= k < actions.len() - 1 ==> #[trigger] actions[k] == InitAction::<P, R, E>::Run(
                remaining[0][k],
            ),
        forall|k: int|
            0 <= k < d.groups@.len() ==> (#[trigger] remaining[0][k])->CreateGroup_id
                == first_ops[k]->CreateGroup_id,
{
    let ops = remaining[0];
    lemma_run_stops_at_first_failure(ops, settled);
    lemma_run_trace(remaining, actions, settled);
    let g = d.groups@;
    assert forall|k: int| 0 <= k < g.len() implies (#[trigger] ops[k])->CreateGroup_id
        == first_ops[k]->CreateGroup_id by {
        assert(creates_group(first_ops[k], g[k], before, first_fresh[new_groups_before(g, before, k)]));
        assert(creates_group(ops[k], g[k], after, next_fresh[new_groups_before(g, after, k)]));
        assert(exists|i: int| 0 <= i < after.len() && (#[trigger] after[i]).name@ == g[k].name@);
        assert forall|i: int| 0 <= i < after.len() && (#[trigger] after[i]).name@ == g[k].name@ implies after[i].id
            == first_ops[k]->CreateGroup_id by {}
        lemma_next_plan_keeps_unique_group_id(
            g[k],
            first_ops[k],
            first_fresh[new_groups_before(g, before, k)],
            ops[k],
            next_fresh[new_groups_before(g, after, k)],
            before,
            after,
        );
    }
}

} // verus!
