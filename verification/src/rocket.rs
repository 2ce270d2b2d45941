//! The `Rocket` application: its routes, its error catchers, and the
//! decisions it makes while dispatching a request.

use vstd::prelude::*;

use crate::data::Data;
use crate::http::{Header, HeaderView, Method, Status, cookie_pair};
use crate::outcome::{HandlerOutcome, Outcome};
use crate::request::{CookieView, Request, RequestView};
use crate::response::{Response, ResponseView, with_header};
use crate::router::{path_matches, paths_collide, uri_matches, uris_collide};
use crate::text::has_char;
use crate::uri::{mount_uri, mounted_uri};

verus! {

/// The configuration an application is launched with.
#[derive(Debug)]
pub struct Config {
    pub address: String,
    pub port: u16,
    pub workers: u16,
}

impl Config {
    /// A configuration with the given address, port and number of workers.
    pub fn new(address: &str, port: u16, workers: u16) -> (c: Config)
        ensures
            c.address@ == address@,
            c.port == port,
            c.workers == workers,
    {
        Config { address: address.to_owned(), port, workers }
    }
}

/// A route: requests with its method whose path matches its URI are handed
/// to its handler `H`. Among matching routes, those of lower rank are tried
/// first.
#[derive(Debug)]
pub struct Route<H> {
    pub method: Method,
    pub base: String,
    pub uri: String,
    pub rank: isize,
    pub handler: H,
}

/// A route as plain values.
pub struct RouteView<H> {
    pub method: Method,
    pub base: Seq<char>,
    pub uri: Seq<char>,
    pub rank: isize,
    pub handler: H,
}

impl<H> Route<H> {
    pub open spec fn view(&self) -> RouteView<H> {
        RouteView {
            method: self.method,
            base: self.base@,
            uri: self.uri@,
            rank: self.rank,
            handler: self.handler,
        }
    }

    /// A route of rank 0 for `method` at `path`, mounted at `/`.
    pub fn new(method: Method, path: &str, handler: H) -> (r: Route<H>)
        ensures
            r.view() == (RouteView { method, base: seq!['/'], uri: path@, rank: 0isize, handler }),
    {
        Route::ranked(0, method, path, handler)
    }

    /// A route of the given rank for `method` at `path`, mounted at `/`.
    pub fn ranked(rank: isize, method: Method, path: &str, handler: H) -> (r: Route<H>)
        ensures
            r.view() == (RouteView { method, base: seq!['/'], uri: path@, rank, handler }),
    {
        let base = crate::text::string_of(&['/']);
        assert(seq!['/'] =~= ['/']@);
        Route { method, base, uri: path.to_owned(), rank, handler }
    }
}

/// An error catcher: answers failures with status `code` with its handler `C`.
#[derive(Debug, Clone, Copy)]
pub struct Catcher<C> {
    pub code: u16,
    pub handler: C,
    pub is_default: bool,
}

impl<C> Catcher<C> {
    /// A catcher supplied by the application.
    pub fn new(code: u16, handler: C) -> (c: Catcher<C>)
        ensures
            c == (Catcher { code, handler, is_default: false }),
    {
        Catcher { code, handler, is_default: false }
    }

    /// One of the catchers that an application starts with.
    pub fn new_default(code: u16, handler: C) -> (c: Catcher<C>)
        ensures
            c == (Catcher { code, handler, is_default: true }),
    {
        Catcher { code, handler, is_default: true }
    }
}

/// The position of the catcher for `code` in `cs`, if there is one.
pub open spec fn code_index<C>(cs: Seq<Catcher<C>>, code: u16) -> Option<int>
    decreases cs.len(),
{
    if cs.len() == 0 {
        None
    } else if cs[0].code == code {
        Some(0)
    } else {
        match code_index(cs.drop_first(), code) {
            Some(i) => Some(i + 1),
            None => None,
        }
    }
}

/// The catcher for `code` in `cs`, if there is one.
pub open spec fn find_catcher<C>(cs: Seq<Catcher<C>>, code: u16) -> Option<Catcher<C>> {
    match code_index(cs, code) {
        Some(i) => Some(cs[i]),
        None => None,
    }
}

/// No two catchers of `cs` have the same code.
pub open spec fn distinct_codes<C>(cs: Seq<Catcher<C>>) -> bool {
    forall|i: int, j: int| 0 <= i < j < cs.len() ==> cs[i].code != cs[j].code
}

/// `cs` with `c` registered: it replaces the catcher with the same code,
/// or is added last.
pub open spec fn register_catcher<C>(cs: Seq<Catcher<C>>, c: Catcher<C>) -> Seq<Catcher<C>> {
    match code_index(cs, c.code) {
        Some(i) => cs.update(i, c),
        None => cs.push(c),
    }
}

/// `cs` with each of `new` registered in turn.
pub open spec fn register_all<C>(cs: Seq<Catcher<C>>, new: Seq<Catcher<C>>) -> Seq<Catcher<C>>
    decreases new.len(),
{
    if new.len() == 0 {
        cs
    } else {
        register_catcher(register_all(cs, new.drop_last()), new.last())
    }
}

proof fn lemma_code_index<C>(cs: Seq<Catcher<C>>, code: u16)
    ensures
        match code_index(cs, code) {
            Some(i) => 0 <= i < cs.len() && cs[i].code == code && forall|j: int|
                0 <= j < i ==> cs[j].code != code,
            None => forall|j: int| 0 <= j < cs.len() ==> cs[j].code != code,
        },
    decreases cs.len(),
{
    if cs.len() > 0 {
        lemma_code_index(cs.drop_first(), code);
        if cs[0].code != code {
            match code_index(cs.drop_first(), code) {
                Some(i) => {
                    assert forall|j: int| 0 <= j < i + 1 implies cs[j].code != code by {
                        if j > 0 {
                            assert(cs[j] == cs.drop_first()[j - 1]);
                        }
                    }
                },
                None => {
                    assert forall|j: int| 0 <= j < cs.len() implies cs[j].code != code by {
                        if j > 0 {
                            assert(cs[j] == cs.drop_first()[j - 1]);
                        }
                    }
                },
            }
        }
    }
}

/// In a list of distinct codes, the catcher found for a code is the one
/// with that code at any position.
proof fn lemma_find_at<C>(cs: Seq<Catcher<C>>, i: int)
    requires
        distinct_codes(cs),
        0 <= i < cs.len(),
    ensures
        find_catcher(cs, cs[i].code) == Some(cs[i]),
{
    lemma_code_index(cs, cs[i].code);
}

/// Registering keeps the codes distinct, and afterwards the catcher found
/// for the new catcher's code is it, while every other code finds what it
/// found before.
pub proof fn register_then_find<C>(cs: Seq<Catcher<C>>, c: Catcher<C>, code: u16)
    requires
        distinct_codes(cs),
    ensures
        distinct_codes(register_catcher(cs, c)),
        find_catcher(register_catcher(cs, c), c.code) == Some(c),
        code != c.code ==> find_catcher(register_catcher(cs, c), code) == find_catcher(cs, code),
{
    lemma_code_index(cs, c.code);
    lemma_code_index(cs, code);
    let r = register_catcher(cs, c);
    match code_index(cs, c.code) {
        Some(i) => {
            assert(r == cs.update(i, c));
            assert(distinct_codes(r)) by {
                assert forall|a: int, b: int| 0 <= a < b < r.len() implies r[a].code != r[b].code by {
                    if a == i {
                        assert(cs[b].code != cs[i].code);
                    } else if b == i {
                        assert(cs[a].code != cs[i].code);
                    }
                }
            }
            lemma_find_at(r, i);
            if code != c.code {
                match code_index(cs, code) {
                    Some(k) => {
                        assert(k != i);
                        assert(r[k] == cs[k]);
                        lemma_find_at(r, k);
                        lemma_find_at(cs, k);
                    },
                    None => {
                        lemma_code_index(r, code);
                        if code_index(r, code) is Some {
                            let k = code_index(r, code)->0;
                            if k == i {
                            } else {
                                assert(r[k] == cs[k]);
                            }
                        }
                    },
                }
            }
        },
        None => {
            assert(r == cs.push(c));
            assert(distinct_codes(r)) by {
                assert forall|a: int, b: int| 0 <= a < b < r.len() implies r[a].code != r[b].code by {
                    if b == cs.len() {
                        assert(r[a] == cs[a]);
                    } else {
                        assert(r[a] == cs[a]);
                        assert(r[b] == cs[b]);
                    }
                }
            }
            lemma_find_at(r, cs.len() as int);
            if code != c.code {
                match code_index(cs, code) {
                    Some(k) => {
                        assert(r[k] == cs[k]);
                        lemma_find_at(r, k);
                        lemma_find_at(cs, k);
                    },
                    None => {
                        lemma_code_index(r, code);
                        if code_index(r, code) is Some {
                            let k = code_index(r, code)->0;
                            if k < cs.len() {
                                assert(r[k] == cs[k]);
                            }
                        }
                    },
                }
            }
        },
    }
}

/// The last catcher of `new` with the given code, if there is one.
pub open spec fn last_with_code<C>(new: Seq<Catcher<C>>, code: u16) -> Option<Catcher<C>>
    decreases new.len(),
{
    if new.len() == 0 {
        None
    } else if new.last().code == code {
        Some(new.last())
    } else {
        last_with_code(new.drop_last(), code)
    }
}

/// After registering a list of catchers, a failure with a given code is
/// answered by the last catcher registered for that code, or else by the
/// catcher that answered it before; and the codes stay distinct.
pub proof fn register_all_then_find<C>(cs: Seq<Catcher<C>>, new: Seq<Catcher<C>>, code: u16)
    requires
        distinct_codes(cs),
    ensures
        distinct_codes(register_all(cs, new)),
        find_catcher(register_all(cs, new), code) == match last_with_code(new, code) {
            Some(c) => Some(c),
            None => find_catcher(cs, code),
        },
    decreases new.len(),
{
    if new.len() > 0 {
        register_all_then_find(cs, new.drop_last(), code);
        register_then_find(register_all(cs, new.drop_last()), new.last(), code);
    }
}

fn find_code<C: Copy>(cs: &Vec<Catcher<C>>, code: u16) -> (r: Option<usize>)
    ensures
        match r {
            Some(k) => code_index(cs@, code) == Some(k as int),
            None => code_index(cs@, code) is None,
        },
{
    proof {
        lemma_code_index(cs@, code);
    }
    let mut i: usize = 0;
    while i < cs.len()
        invariant
            i <= cs@.len(),
            forall|j: int| 0 <= j < i ==> cs@[j].code != code,
        decreases cs@.len() - i,
    {
        if cs[i].code == code {
            proof {
                lemma_code_index(cs@, code);
            }
            return Some(i);
        }
        i += 1;
    }
    proof {
        lemma_code_index(cs@, code);
    }
    None
}

/// The status codes that the starting catchers answer, in order.
pub open spec fn default_codes() -> Seq<u16> {
    seq![
        400u16, 401, 402, 403, 404, 405, 406, 407, 408, 409, 410, 411, 412, 413, 414, 415, 416,
        417, 418, 421, 426, 428, 429, 431, 451, 500, 501, 503, 510,
    ]
}

/// The starting catchers: one for each of the default codes, in order, each
/// answered by `handler`.
pub open spec fn default_catcher_list<C>(handler: C) -> Seq<Catcher<C>> {
    default_codes().map_values(|code: u16| Catcher { code, handler, is_default: true })
}

/// Each code of `s` is below the next one.
spec fn increasing(s: Seq<u16>) -> bool
    decreases s.len(),
{
    s.len() < 2 || (s[0] < s[1] && increasing(s.drop_first()))
}

proof fn lemma_increasing(s: Seq<u16>)
    requires
        increasing(s),
    ensures
        forall|i: int, j: int| 0 <= i < j < s.len() ==> s[i] < s[j],
    decreases s.len(),
{
    if s.len() >= 2 {
        lemma_increasing(s.drop_first());
        assert forall|i: int, j: int| 0 <= i < j < s.len() implies s[i] < s[j] by {
            if i > 0 {
                assert(s[i] == s.drop_first()[i - 1] && s[j] == s.drop_first()[j - 1]);
            } else if j > 1 {
                assert(s[1] == s.drop_first()[0] && s[j] == s.drop_first()[j - 1]);
            }
        }
    }
}

/// The starting catchers have distinct codes, and one of them answers 500.
proof fn lemma_default_catchers<C>(handler: C)
    ensures
        distinct_codes(default_catcher_list(handler)),
        find_catcher(default_catcher_list(handler), 500) is Some,
{
    let cs = default_catcher_list(handler);
    assert(increasing(default_codes())) by {
        reveal_with_fuel(increasing, 30);
    }
    lemma_increasing(default_codes());
    assert forall|i: int, j: int| 0 <= i < j < cs.len() implies cs[i].code != cs[j].code by {
        assert(cs[i].code == default_codes()[i] && cs[j].code == default_codes()[j]);
    }
    lemma_code_index(cs, 500);
    assert(cs[25].code == 500);
}

/// The starting catchers: one for each of the default codes, in order, each
/// answered by `handler`.
pub fn default_catchers<C: Copy>(handler: C) -> (v: Vec<Catcher<C>>)
    ensures
        v@ == default_catcher_list(handler),
{
    let codes: Vec<u16> = vec![
        400u16, 401, 402, 403, 404, 405, 406, 407, 408, 409, 410, 411, 412, 413, 414, 415, 416,
        417, 418, 421, 426, 428, 429, 431, 451, 500, 501, 503, 510,
    ];
    assert(codes@ =~= default_codes());
    let mut v: Vec<Catcher<C>> = Vec::new();
    let mut i: usize = 0;
    while i < codes.len()
        invariant
            i <= codes@.len(),
            codes@ == default_codes(),
            v@ == default_catcher_list(handler).take(i as int),
        decreases codes@.len() - i,
    {
        v.push(Catcher::new_default(codes[i], handler));
        assert(default_catcher_list(handler).take((i + 1) as int) =~= default_catcher_list(handler).take(
            i as int,
        ).push(Catcher { code: codes@[i as int], handler, is_default: true }));
        i += 1;
    }
    assert(default_catcher_list(handler).take(codes@.len() as int) =~= default_catcher_list(handler));
    v
}

fn copy_catchers<C: Copy>(cs: &Vec<Catcher<C>>) -> (out: Vec<Catcher<C>>)
    ensures
        out@ == cs@,
{
    let mut out: Vec<Catcher<C>> = Vec::new();
    let mut i: usize = 0;
    while i < cs.len()
        invariant
            i <= cs@.len(),
            out@ == cs@.take(i as int),
        decreases cs@.len() - i,
    {
        out.push(cs[i]);
        assert(cs@.take((i + 1) as int) =~= cs@.take(i as int).push(cs@[i as int]));
        i += 1;
    }
    assert(cs@.take(cs@.len() as int) =~= cs@);
    out
}

/// The routes of `rs` as plain values.
pub open spec fn routes_view<H>(rs: Seq<Route<H>>) -> Seq<RouteView<H>> {
    rs.map_values(|r: Route<H>| r.view())
}

/// `rs` with `r` inserted after every route of rank at most its rank and
/// before the others.
pub open spec fn insert_ranked<H>(rs: Seq<RouteView<H>>, r: RouteView<H>) -> Seq<RouteView<H>>
    decreases rs.len(),
{
    if rs.len() == 0 {
        seq![r]
    } else if rs[0].rank > r.rank {
        seq![r] + rs
    } else {
        seq![rs[0]] + insert_ranked(rs.drop_first(), r)
    }
}

/// The routes of `rs` are in order of rank.
pub open spec fn rank_sorted<H>(rs: Seq<RouteView<H>>) -> bool {
    forall|i: int, j: int| 0 <= i < j < rs.len() ==> rs[i].rank <= rs[j].rank
}

/// A route as it stands once mounted at `base`.
pub open spec fn mounted_route<H>(r: RouteView<H>, base: Seq<char>) -> RouteView<H> {
    RouteView { base, uri: mounted_uri(base, r.uri), ..r }
}

/// `rs` with each of `new` mounted at `base` and inserted in turn.
pub open spec fn mount_all<H>(rs: Seq<RouteView<H>>, base: Seq<char>, new: Seq<RouteView<H>>) -> Seq<RouteView<H>>
    decreases new.len(),
{
    if new.len() == 0 {
        rs
    } else {
        insert_ranked(mount_all(rs, base, new.drop_last()), mounted_route(new.last(), base))
    }
}

proof fn lemma_insert_ranked<H>(rs: Seq<RouteView<H>>, r: RouteView<H>, k: int)
    requires
        0 <= k <= rs.len(),
        forall|j: int| 0 <= j < k ==> rs[j].rank <= r.rank,
        k == rs.len() || rs[k].rank > r.rank,
    ensures
        insert_ranked(rs, r) == rs.take(k) + seq![r] + rs.skip(k),
    decreases rs.len(),
{
    if rs.len() == 0 {
        assert(rs.take(k) + seq![r] + rs.skip(k) =~= seq![r]);
    } else if k == 0 {
        assert(rs.take(0) + seq![r] + rs.skip(0) =~= seq![r] + rs);
    } else {
        lemma_insert_ranked(rs.drop_first(), r, k - 1);
        assert(rs.take(k) + seq![r] + rs.skip(k) =~= seq![rs[0]] + (rs.drop_first().take(k - 1)
            + seq![r] + rs.drop_first().skip(k - 1)));
    }
}

/// Where `insert_ranked` places a route: after the leading routes of rank
/// at most its rank.
pub open spec fn insert_pos<H>(rs: Seq<RouteView<H>>, r: RouteView<H>) -> int
    decreases rs.len(),
{
    if rs.len() == 0 {
        0
    } else if rs[0].rank > r.rank {
        0
    } else {
        1 + insert_pos(rs.drop_first(), r)
    }
}

proof fn lemma_insert_pos<H>(rs: Seq<RouteView<H>>, r: RouteView<H>)
    ensures
        0 <= insert_pos(rs, r) <= rs.len(),
        forall|j: int| 0 <= j < insert_pos(rs, r) ==> rs[j].rank <= r.rank,
        insert_pos(rs, r) == rs.len() || rs[insert_pos(rs, r)].rank > r.rank,
    decreases rs.len(),
{
    if rs.len() > 0 && rs[0].rank <= r.rank {
        lemma_insert_pos(rs.drop_first(), r);
        assert forall|j: int| 0 <= j < insert_pos(rs, r) implies rs[j].rank <= r.rank by {
            if j > 0 {
                assert(rs[j] == rs.drop_first()[j - 1]);
            }
        }
    }
}

/// Inserting by rank adds exactly the new route, at the place after the
/// routes of rank at most its rank, and keeps a list in order of rank.
pub proof fn insert_keeps_rank_order<H>(rs: Seq<RouteView<H>>, r: RouteView<H>)
    requires
        rank_sorted(rs),
    ensures
        rank_sorted(insert_ranked(rs, r)),
        insert_ranked(rs, r) == rs.take(insert_pos(rs, r)) + seq![r] + rs.skip(insert_pos(rs, r)),
{
    lemma_insert_pos(rs, r);
    let k = insert_pos(rs, r);
    lemma_insert_ranked(rs, r, k);
    let out = insert_ranked(rs, r);
    assert forall|i: int, j: int| 0 <= i < j < out.len() implies out[i].rank <= out[j].rank by {
        if j < k {
            assert(out[i] == rs[i] && out[j] == rs[j]);
        } else if j == k {
            assert(out[i] == rs[i]);
        } else if i < k {
            assert(out[i] == rs[i] && out[j] == rs[j - 1]);
            assert(rs[k].rank <= rs[j - 1].rank || k == j - 1);
        } else if i == k {
            assert(out[j] == rs[j - 1]);
            assert(rs[k].rank <= rs[j - 1].rank || k == j - 1);
        } else {
            assert(out[i] == rs[i - 1] && out[j] == rs[j - 1]);
        }
    }
}

/// An application as plain values: its configuration, its routes in the
/// order they are tried, its registered catchers, the catchers it started
/// with, and how many values of managed state it holds.
#[verifier::ext_equal]
pub struct RocketModel<H, C> {
    pub config: Config,
    pub routes: Seq<RouteView<H>>,
    pub catchers: Seq<Catcher<C>>,
    pub default_catchers: Seq<Catcher<C>>,
    pub managed: nat,
}

/// A step of building an application.
pub enum BuildStep<H, C> {
    /// Mounting these routes at this base.
    Mount(Seq<char>, Seq<RouteView<H>>),
    /// Registering these catchers in turn.
    Catch(Seq<Catcher<C>>),
    /// Managing a value of state of a type not managed yet.
    Manage,
}

/// The application `m` after the step `step`.
pub open spec fn apply_step<H, C>(m: RocketModel<H, C>, step: BuildStep<H, C>) -> RocketModel<H, C> {
    match step {
        BuildStep::Mount(base, rs) => RocketModel { routes: mount_all(m.routes, base, rs), ..m },
        BuildStep::Catch(cs) => RocketModel { catchers: register_all(m.catchers, cs), ..m },
        BuildStep::Manage => RocketModel { managed: m.managed + 1, ..m },
    }
}

/// The application `m` after each of `steps` in turn.
pub open spec fn apply_steps<H, C>(m: RocketModel<H, C>, steps: Seq<BuildStep<H, C>>) -> RocketModel<H, C>
    decreases steps.len(),
{
    if steps.len() == 0 {
        m
    } else {
        apply_step(apply_steps(m, steps.drop_last()), steps.last())
    }
}

/// The application that `custom` makes from `config` and the handler of
/// the starting catchers.
pub open spec fn custom_model<H, C>(config: Config, handler: C) -> RocketModel<H, C> {
    RocketModel {
        config,
        routes: Seq::empty(),
        catchers: default_catcher_list(handler),
        default_catchers: default_catcher_list(handler),
        managed: 0,
    }
}

/// Building an application never changes its configuration: after any
/// sequence of mounting routes, registering catchers and managing state, the
/// configuration is the one it started with.
pub proof fn building_keeps_config<H, C>(m: RocketModel<H, C>, steps: Seq<BuildStep<H, C>>)
    ensures
        apply_steps(m, steps).config == m.config,
    decreases steps.len(),
{
    if steps.len() > 0 {
        building_keeps_config(m, steps.drop_last());
    }
}

/// The active configuration is the one given to `custom`: whatever routes
/// are mounted, catchers registered and state managed afterwards, the
/// configuration stays the one supplied.
pub proof fn custom_config_is_kept<H, C>(config: Config, handler: C, steps: Seq<BuildStep<H, C>>)
    ensures
        apply_steps(custom_model::<H, C>(config, handler), steps).config == config,
{
    building_keeps_config(custom_model::<H, C>(config, handler), steps);
}

/// What `custom` makes depends on its arguments alone: two applications made
/// from the same configuration and starting handler are the same, with no
/// routes, the starting catchers and no managed state; nothing else (no
/// file, no environment variable) reaches them.
pub proof fn custom_depends_on_arguments<H, C>(a: RocketModel<H, C>, b: RocketModel<H, C>, config: Config, handler: C)
    requires
        a == custom_model::<H, C>(config, handler),
        b == custom_model::<H, C>(config, handler),
    ensures
        a == b,
        a.config == config,
        a.routes.len() == 0,
        a.catchers == default_catcher_list(handler),
        a.managed == 0,
{
}

#[verifier::external_type_specification]
#[verifier::external_body]
pub struct ExContainer(state::Container);

/// Names how many values the state container `c` holds: one for each type
/// whose state was set.
pub uninterp spec fn managed_count(c: state::Container) -> nat;

/// Names whether the state container `c` is frozen: a frozen container
/// takes no more values.
pub uninterp spec fn state_frozen(c: state::Container) -> bool;

/// Calls `state::Container::new`, which makes a container with no stored
/// values that is not frozen.
#[verifier::external_body]
fn new_container() -> (c: state::Container)
    ensures
        managed_count(c) == 0,
        !state_frozen(c),
{
    state::Container::new()
}

/// Calls `state::Container::set`. Unless the container is frozen or already
/// holds a value of type `T`, it stores `value` as the state for `T` and
/// returns `true`; otherwise it changes nothing and returns `false`. The
/// contract claims: whether it is frozen is kept; `true` means one value
/// more is held, `false` that as many are held as before; a frozen
/// container gives `false`, and an unfrozen one that holds nothing gives
/// `true`. Which types are held is not stated (they are keyed by `TypeId`,
/// which has no model here).
#[verifier::external_body]
fn container_set<T: Send + Sync + 'static>(container: &mut state::Container, value: T) -> (stored: bool)
    ensures
        state_frozen(*final(container)) == state_frozen(*old(container)),
        stored ==> managed_count(*final(container)) == managed_count(*old(container)) + 1,
        !stored ==> managed_count(*final(container)) == managed_count(*old(container)),
        state_frozen(*old(container)) ==> !stored,
        !state_frozen(*old(container)) && managed_count(*old(container)) == 0 ==> stored,
{
    container.set(value)
}

/// A Rocket application: configuration, routes in order of rank, error
/// catchers, and managed state.
pub struct Rocket<H, C> {
    config: Config,
    routes: Vec<Route<H>>,
    default_catchers: Vec<Catcher<C>>,
    catchers: Vec<Catcher<C>>,
    state: state::Container,
}

impl<H, C> Rocket<H, C> {
    /// The routes, as plain values, in the order they are tried.
    pub closed spec fn routes_view(&self) -> Seq<RouteView<H>> {
        routes_view(self.routes@)
    }

    /// The registered catchers.
    pub closed spec fn catchers_view(&self) -> Seq<Catcher<C>> {
        self.catchers@
    }

    /// The catchers the application started with.
    pub closed spec fn default_catchers_view(&self) -> Seq<Catcher<C>> {
        self.default_catchers@
    }

    /// The configuration.
    pub closed spec fn config_view(&self) -> &Config {
        &self.config
    }

    /// The application as plain values.
    pub open spec fn model(&self) -> RocketModel<H, C> {
        RocketModel {
            config: *self.config_view(),
            routes: self.routes_view(),
            catchers: self.catchers_view(),
            default_catchers: self.default_catchers_view(),
            managed: self.managed(),
        }
    }

    /// How many values of managed state the application holds.
    pub closed spec fn managed(&self) -> nat {
        managed_count(self.state)
    }

    /// The application's state is consistent: routes are in order of rank,
    /// catcher codes are distinct, and both the registered and the starting
    /// catchers answer 500.
    pub closed spec fn wf(&self) -> bool {
        &&& rank_sorted(routes_view(self.routes@))
        &&& distinct_codes(self.catchers@)
        &&& distinct_codes(self.default_catchers@)
        &&& find_catcher(self.catchers@, 500) is Some
        &&& find_catcher(self.default_catchers@, 500) is Some
        &&& !state_frozen(self.state)
    }

    /// What a consistent application guarantees, as its callers can use it:
    /// its routes are in order of rank, its registered and starting catchers
    /// have distinct codes, and both answer 500.
    pub proof fn lemma_wf(&self)
        requires
            self.wf(),
        ensures
            rank_sorted(self.routes_view()),
            distinct_codes(self.catchers_view()),
            distinct_codes(self.default_catchers_view()),
            find_catcher(self.catchers_view(), 500) is Some,
            find_catcher(self.default_catchers_view(), 500) is Some,
    {
    }

    /// The configuration.
    pub fn config(&self) -> (c: &Config)
        ensures
            c == self.config_view(),
    {
        &self.config
    }

    /// The mounted routes, in the order they are tried.
    pub fn routes(&self) -> (rs: &[Route<H>])
        ensures
            routes_view(rs@) == self.routes_view(),
    {
        self.routes.as_slice()
    }
}

impl<H, C: Copy> Rocket<H, C> {
    /// An application with the given configuration, no routes, no managed
    /// state, and the starting catchers: one for each of the default codes,
    /// each answered by `default_handler`. `log` asks for logging, which is
    /// the caller's to set up.
    pub fn custom(config: Config, log: bool, default_handler: C) -> (r: Rocket<H, C>)
        ensures
            r.wf(),
            r.routes_view() == Seq::<RouteView<H>>::empty(),
            r.catchers_view() == default_catcher_list(default_handler),
            r.default_catchers_view() == default_catcher_list(default_handler),
            *r.config_view() == config,
            r.model() == custom_model::<H, C>(config, default_handler),
    {
        proof {
            lemma_default_catchers(default_handler);
        }
        let defaults = default_catchers(default_handler);
        let catchers = copy_catchers(&defaults);
        let r = Rocket {
            config,
            routes: Vec::new(),
            default_catchers: defaults,
            catchers,
            state: new_container(),
        };
        assert(routes_view(r.routes@) =~= Seq::<RouteView<H>>::empty());
        r
    }

    /// Registers each of `catchers` in turn: one replaces the catcher with the
    /// same code, if there is one, or is added.
    pub fn catch(self, catchers: Vec<Catcher<C>>) -> (r: Rocket<H, C>)
        requires
            self.wf(),
        ensures
            r.wf(),
            r.catchers_view() == register_all(self.catchers_view(), catchers@),
            r.routes_view() == self.routes_view(),
            r.default_catchers_view() == self.default_catchers_view(),
            *r.config_view() == *self.config_view(),
            r.model() == apply_step(self.model(), BuildStep::Catch(catchers@)),
    {
        let mut s = self;
        let ghost orig = s.catchers@;
        let mut i: usize = 0;
        while i < catchers.len()
            invariant
                i <= catchers@.len(),
                s.wf(),
                s.catchers@ == register_all(orig, catchers@.take(i as int)),
                s.routes@ == self.routes@,
                s.default_catchers@ == self.default_catchers@,
                s.config == self.config,
                s.state == self.state,
            decreases catchers@.len() - i,
        {
            let c = catchers[i];
            let ghost before = s.catchers@;
            proof {
                register_then_find(s.catchers@, c, 500);
                lemma_code_index(s.catchers@, c.code);
                assert(catchers@.take((i + 1) as int).drop_last() =~= catchers@.take(i as int));
            }
            match find_code(&s.catchers, c.code) {
                Some(k) => {
                    s.catchers.set(k, c);
                },
                None => {
                    s.catchers.push(c);
                },
            }
            assert(s.catchers@ == register_catcher(before, c));
            i += 1;
        }
        assert(catchers@.take(catchers@.len() as int) =~= catchers@);
        s
    }

    /// The catcher registered for `code`, if there is one.
    pub fn catcher(&self, code: u16) -> (c: Option<Catcher<C>>)
        ensures
            c == find_catcher(self.catchers_view(), code),
    {
        proof {
            lemma_code_index(self.catchers@, code);
        }
        match find_code(&self.catchers, code) {
            Some(k) => Some(self.catchers[k]),
            None => None,
        }
    }
}

impl<H, C> Rocket<H, C> {
    /// Adds `state` to the state managed by the application. At most one
    /// value of each type is managed: when a value of type `T` already is,
    /// the application comes back as `Err`, unchanged. An application that
    /// manages nothing yet always takes the value.
    pub fn manage<T: Send + Sync + 'static>(self, state: T) -> (r: Result<Rocket<H, C>, Rocket<H, C>>)
        requires
            self.wf(),
        ensures
            match r {
                Ok(x) => x.wf() && x.model() == apply_step(self.model(), BuildStep::Manage),
                Err(x) => x.wf() && x.model() == self.model(),
            },
            self.model().managed == 0 ==> r is Ok,
    {
        let mut s = self;
        if container_set(&mut s.state, state) {
            Ok(s)
        } else {
            Err(s)
        }
    }

    /// Mounts each of `routes` at `base`: its base becomes `base` and its URI
    /// `base/uri`, normalized, and it is placed after the routes of rank at
    /// most its rank. The base must be a static path: it may not hold `<`.
    pub fn mount(self, base: &str, routes: Vec<Route<H>>) -> (r: Rocket<H, C>)
        requires
            self.wf(),
            !has_char(base@, '<'),
        ensures
            r.wf(),
            r.routes_view() == mount_all(self.routes_view(), base@, routes_view(routes@)),
            r.catchers_view() == self.catchers_view(),
            r.default_catchers_view() == self.default_catchers_view(),
            *r.config_view() == *self.config_view(),
            r.model() == apply_step(self.model(), BuildStep::Mount(base@, routes_view(routes@))),
    {
        let mut s = self;
        let ghost orig = routes_view(s.routes@);
        let ghost given = routes_view(routes@);
        let mut rest = routes;
        let mut taken: Vec<Route<H>> = Vec::new();
        // Take the routes from the back, then mount them from the front.
        while rest.len() > 0
            invariant
                routes_view(rest@) + routes_view(taken@).reverse() == given,
            decreases rest@.len(),
        {
            let ghost before_rest = rest@;
            let ghost before_taken = taken@;
            let r = rest.pop().unwrap();
            taken.push(r);
            assert(routes_view(rest@) =~= routes_view(before_rest).drop_last());
            assert(routes_view(taken@) =~= routes_view(before_taken).push(r.view()));
            assert(routes_view(before_rest) =~= routes_view(rest@).push(r.view()));
            assert(routes_view(taken@).reverse() =~= seq![r.view()] + routes_view(before_taken).reverse());
        }
        assert(routes_view(taken@).reverse() =~= given);
        let mut done: usize = 0;
        let n = taken.len();
        while taken.len() > 0
            invariant
                s.wf(),
                done + taken@.len() == n,
                n == given.len(),
                routes_view(taken@).reverse() == given.skip(done as int),
                routes_view(s.routes@) == mount_all(orig, base@, given.take(done as int)),
                s.catchers@ == self.catchers@,
                s.default_catchers@ == self.default_catchers@,
                s.config == self.config,
                s.state == self.state,
            decreases taken@.len(),
        {
            let ghost before_taken = taken@;
            let mut r = taken.pop().unwrap();
            assert(routes_view(before_taken).reverse()[0] == r.view());
            assert(given[done as int] == r.view());
            assert(routes_view(taken@) =~= routes_view(before_taken).drop_last());
            assert(routes_view(taken@).reverse() =~= routes_view(before_taken).reverse().drop_first());
            assert(given.skip(done as int).drop_first() =~= given.skip(done + 1));
            let ghost rv = r.view();
            let uri = mount_uri(base, r.uri.as_str());
            r.base = base.to_owned();
            r.uri = uri;
            let mut k: usize = 0;
            while k < s.routes.len() && s.routes[k].rank <= r.rank
                invariant
                    k <= s.routes@.len(),
                    forall|j: int| 0 <= j < k ==> s.routes@[j].rank <= r.rank,
                decreases s.routes@.len() - k,
            {
                k += 1;
            }
            let ghost before = routes_view(s.routes@);
            proof {
                lemma_insert_ranked(before, r.view(), k as int);
                insert_keeps_rank_order(before, r.view());
            }
            let ghost mr = r.view();
            s.routes.insert(k, r);
            assert(routes_view(s.routes@) =~= before.take(k as int) + seq![mr] + before.skip(k as int));
            assert(mr == mounted_route(rv, base@));
            assert(given.take(done + 1) =~= given.take(done as int).push(rv));
            assert(given.take(done + 1).drop_last() =~= given.take(done as int));
            done += 1;
        }
        assert(given.take(n as int) =~= given);
        s
    }
}


/// A route matches a request: the methods are the same, and the route's path
/// matches the request's path.
pub open spec fn route_matches<H>(r: RouteView<H>, req: RequestView) -> bool {
    r.method == req.method && path_matches(r.uri, req.uri)
}

/// The positions among the first `n` routes of `rs` of those that match
/// `req`, in order.
pub open spec fn matching_upto<H>(rs: Seq<RouteView<H>>, req: RequestView, n: int) -> Seq<int>
    decreases n,
{
    if n <= 0 {
        Seq::empty()
    } else {
        let prev = matching_upto(rs, req, n - 1);
        if route_matches(rs[n - 1], req) {
            prev.push(n - 1)
        } else {
            prev
        }
    }
}

/// The positions of the routes of `rs` that match `req`, in order.
pub open spec fn matching_routes<H>(rs: Seq<RouteView<H>>, req: RequestView) -> Seq<int> {
    matching_upto(rs, req, rs.len() as int)
}

/// Mounting a route with URI `uri` at `base` makes it available at
/// `base/uri`: a request with the route's method and the URI `base/uri`
/// matches the mounted route.
pub proof fn mounted_route_serves<H>(r: RouteView<H>, base: Seq<char>, req: RequestView)
    requires
        req.method == r.method,
        req.uri == base + seq!['/'] + r.uri,
    ensures
        route_matches(mounted_route(r, base), req),
{
    crate::router::mounted_path_part(base, r.uri);
    crate::router::normalize_keeps_segments(crate::uri::path_part(req.uri));
    crate::router::match_is_reflexive(crate::router::segments(crate::uri::path_part(req.uri)));
}

/// Two routes that match the same request, with the same rank, collide: a
/// check before launch finds them.
pub proof fn common_match_is_collision<H>(a: RouteView<H>, b: RouteView<H>, req: RequestView)
    requires
        route_matches(a, req),
        route_matches(b, req),
        a.rank == b.rank,
    ensures
        routes_collide(a, b),
{
    crate::router::common_match_collides(
        crate::router::segments(crate::uri::path_part(a.uri)),
        crate::router::segments(crate::uri::path_part(b.uri)),
        crate::router::segments(crate::uri::path_part(req.uri)),
    );
}

/// Two routes collide: the same method and rank, and colliding paths.
pub open spec fn routes_collide<H>(a: RouteView<H>, b: RouteView<H>) -> bool {
    a.method == b.method && a.rank == b.rank && paths_collide(a.uri, b.uri)
}

/// Some two routes of `rs` collide.
pub open spec fn any_collision<H>(rs: Seq<RouteView<H>>) -> bool {
    exists|i: int, j: int| 0 <= i < j < rs.len() && routes_collide(rs[i], rs[j])
}

/// Why an application cannot be launched.
#[derive(Debug, Clone, Copy, PartialEq, Eq, Structural)]
pub enum LaunchErrorKind {
    /// Two routes collide.
    Collision,
    /// A fairing failed when it was attached.
    FailedFairing,
}

/// The positions as integers.
pub open spec fn positions(v: Seq<usize>) -> Seq<int> {
    v.map_values(|i: usize| i as int)
}

impl<H, C> Rocket<H, C> {
    /// The positions of the routes that match `req`, in the order they are
    /// tried.
    pub fn matching_routes(&self, req: &Request) -> (v: Vec<usize>)
        ensures
            positions(v@) == matching_routes(self.routes_view(), req@),
            forall|k: int| 0 <= k < v@.len() ==> v@[k] < self.routes_view().len(),
    {
        let mut v: Vec<usize> = Vec::new();
        let mut i: usize = 0;
        let ghost rs = self.routes_view();
        assert(positions(v@) =~= Seq::<int>::empty());
        while i < self.routes.len()
            invariant
                i <= self.routes@.len(),
                rs == self.routes_view(),
                rs.len() == self.routes@.len(),
                positions(v@) == matching_upto(rs, req@, i as int),
                forall|k: int| 0 <= k < v@.len() ==> v@[k] < i,
            decreases self.routes@.len() - i,
        {
            let r = &self.routes[i];
            assert(rs[i as int] == r.view());
            if r.method == req.method() && uri_matches(r.uri.as_str(), req.uri()) {
                let ghost before = v@;
                v.push(i);
                assert(positions(v@) =~= positions(before).push(i as int));
            }
            i += 1;
        }
        v
    }

    /// Starts routing `req`: its matching routes are to be tried in order.
    pub fn start_routing(&self, req: &Request) -> (r: Routing)
        ensures
            r.wf(),
            positions(r.candidates()) == matching_routes(self.routes_view(), req@),
            r.tried() == Seq::<usize>::empty(),
            forall|k: int| 0 <= k < r.candidates().len() ==> r.candidates()[k] < self.routes_view().len(),
    {
        Routing::new(self.matching_routes(req))
    }

    /// The handler of the route at position `i`.
    pub fn handler(&self, i: usize) -> (h: &H)
        requires
            i < self.routes_view().len(),
        ensures
            *h == self.routes_view()[i as int].handler,
    {
        &self.routes[i].handler
    }

    /// Whether some two routes collide.
    pub fn has_collisions(&self) -> (b: bool)
        ensures
            b == any_collision(self.routes_view()),
    {
        let ghost rs = self.routes_view();
        let n = self.routes.len();
        let mut i: usize = 0;
        while i < n
            invariant
                n == rs.len(),
                rs == self.routes_view(),
                i <= n,
                forall|a: int, b: int| 0 <= a < b < n && a < i ==> !routes_collide(rs[a], rs[b]),
            decreases n - i,
        {
            let mut j: usize = i + 1;
            while j < n
                invariant
                    n == rs.len(),
                    rs == self.routes_view(),
                    i < n,
                    i + 1 <= j <= n,
                    forall|a: int, b: int| 0 <= a < b < n && a < i ==> !routes_collide(rs[a], rs[b]),
                    forall|b: int| i < b < j ==> !routes_collide(rs[i as int], rs[b]),
                decreases n - j,
            {
                let a = &self.routes[i];
                let b = &self.routes[j];
                assert(rs[i as int] == a.view());
                assert(rs[j as int] == b.view());
                if a.method == b.method && a.rank == b.rank && uris_collide(a.uri.as_str(), b.uri.as_str()) {
                    assert(0 <= i < j < rs.len() && routes_collide(rs[i as int], rs[j as int]));
                    return true;
                }
                j += 1;
            }
            i += 1;
        }
        false
    }

    /// The check made before launching: colliding routes come first, then a
    /// fairing that failed when attached.
    pub fn prelaunch_check(&self, fairing_failed: bool) -> (e: Option<LaunchErrorKind>)
        ensures
            e == if any_collision(self.routes_view()) {
                Some(LaunchErrorKind::Collision)
            } else if fairing_failed {
                Some(LaunchErrorKind::FailedFairing)
            } else {
                None
            },
    {
        if self.has_collisions() {
            Some(LaunchErrorKind::Collision)
        } else if fairing_failed {
            Some(LaunchErrorKind::FailedFairing)
        } else {
            None
        }
    }
}

impl<H, C: Copy> Rocket<H, C> {
    /// The catcher that answers a failure with `status`: the one registered
    /// for its code, else the one registered for 500.
    pub fn catcher_for(&self, status: Status) -> (c: Catcher<C>)
        requires
            self.wf(),
        ensures
            c == match find_catcher(self.catchers_view(), status.code) {
                Some(x) => x,
                None => find_catcher(self.catchers_view(), 500)->0,
            },
    {
        match self.catcher(status.code) {
            Some(c) => c,
            None => self.catcher(500).unwrap(),
        }
    }

    /// The starting 500 catcher: it answers when a catcher fails.
    pub fn default_catcher(&self) -> (c: Catcher<C>)
        requires
            self.wf(),
        ensures
            Some(c) == find_catcher(self.default_catchers_view(), 500),
    {
        proof {
            lemma_code_index(self.default_catchers@, 500);
        }
        let k = find_code(&self.default_catchers, 500).unwrap();
        self.default_catchers[k]
    }
}

/// What follows the answer of an error catcher.
pub enum CatchStep<B, C> {
    /// Send this response.
    Respond(Response<B>),
    /// The catcher failed: this catcher answers this status instead.
    Retry(Catcher<C>, Status),
    /// The starting 500 catcher failed too: there is no response to send.
    Abort,
}

impl<H, C: Copy> Rocket<H, C> {
    /// Decides what follows a catcher's answer. A response is sent. When the
    /// catcher failed, the starting 500 catcher answers 500 Internal Server
    /// Error instead; when that one was the catcher that failed
    /// (`fell_back`), there is nothing left to answer with.
    pub fn after_catcher<B>(&self, answer: Result<Response<B>, Status>, fell_back: bool) -> (step: CatchStep<B, C>)
        requires
            self.wf(),
        ensures
            match answer {
                Ok(resp) => step == CatchStep::<B, C>::Respond(resp),
                Err(_) => if fell_back {
                    step == CatchStep::<B, C>::Abort
                } else {
                    &&& step matches CatchStep::Retry(c, s)
                    &&& Some(c) == find_catcher(self.default_catchers_view(), 500)
                    &&& s.code == 500
                },
            },
    {
        match answer {
            Ok(resp) => CatchStep::Respond(resp),
            Err(_) => if fell_back {
                CatchStep::Abort
            } else {
                CatchStep::Retry(self.default_catcher(), Status::internal_server_error())
            },
        }
    }
}

/// Where routing stands: the positions of the matching routes, and how
/// many of them were handed the request.
pub struct Routing {
    candidates: Vec<usize>,
    pos: usize,
}

impl Routing {
    /// The positions of the matching routes, in the order they are tried.
    pub closed spec fn candidates(&self) -> Seq<usize> {
        self.candidates@
    }

    /// The positions of the routes handed the request so far.
    pub closed spec fn tried(&self) -> Seq<usize> {
        self.candidates@.take(self.pos as int)
    }

    /// The count of routes tried does not exceed the count of candidates.
    pub closed spec fn wf(&self) -> bool {
        self.pos <= self.candidates@.len()
    }

    /// Routing over the given matching routes, none tried yet.
    pub fn new(candidates: Vec<usize>) -> (r: Routing)
        ensures
            r.wf(),
            r.candidates() == candidates@,
            r.tried() == Seq::<usize>::empty(),
    {
        let r = Routing { candidates, pos: 0 };
        assert(r.tried() =~= Seq::<usize>::empty());
        r
    }

    /// The next route to hand the request to, in order, or `None` when every
    /// matching route has been tried (the request is then forwarded).
    pub fn next_route(&mut self) -> (r: Option<usize>)
        requires
            old(self).wf(),
        ensures
            final(self).wf(),
            final(self).candidates() == old(self).candidates(),
            match r {
                Some(i) => {
                    &&& old(self).tried().len() < old(self).candidates().len()
                    &&& i == old(self).candidates()[old(self).tried().len() as int]
                    &&& final(self).tried() == old(self).tried().push(i)
                },
                None => {
                    &&& final(self).tried() == old(self).candidates()
                    &&& final(self).tried() == old(self).tried()
                },
            },
    {
        if self.pos < self.candidates.len() {
            let i = self.candidates[self.pos];
            assert(self.candidates@.take(self.pos + 1) =~= self.candidates@.take(self.pos as int).push(i));
            self.pos = self.pos + 1;
            Some(i)
        } else {
            assert(self.candidates@.take(self.pos as int) =~= self.candidates@);
            None
        }
    }
}

/// What routing does next.
pub enum RouteStep<B, S> {
    /// Hand the request, with this body data, to the route at this position.
    Try(usize, Data<S>),
    /// Routing is over, with this outcome.
    Done(HandlerOutcome<B, S>),
}

impl Routing {
    /// Decides what follows the outcome of a handler. A success or a failure
    /// ends routing with that outcome. A forward hands its data, and the
    /// request, to the next matching route, recording that route in the
    /// request; when every matching route has been tried, routing ends with
    /// the forward. Routing starts by calling this with a forward of the
    /// request's data.
    pub fn on_outcome<B, S>(&mut self, request: &mut Request, outcome: HandlerOutcome<B, S>) -> (step: RouteStep<B, S>)
        requires
            old(self).wf(),
        ensures
            final(self).wf(),
            final(self).candidates() == old(self).candidates(),
            match outcome {
                Outcome::Forward(d) => if old(self).tried().len() < old(self).candidates().len() {
                    let i = old(self).candidates()[old(self).tried().len() as int];
                    &&& step == RouteStep::<B, S>::Try(i, d)
                    &&& final(self).tried() == old(self).tried().push(i)
                    &&& final(request)@ == (RequestView { route: Some(i), ..old(request)@ })
                } else {
                    &&& step == RouteStep::<B, S>::Done(Outcome::Forward(d))
                    &&& final(self).tried() == old(self).candidates()
                    &&& final(request)@ == old(request)@
                },
                other => {
                    &&& step == RouteStep::<B, S>::Done(other)
                    &&& final(self).tried() == old(self).tried()
                    &&& final(request)@ == old(request)@
                },
            },
    {
        match outcome {
            Outcome::Forward(data) => match self.next_route() {
                Some(i) => {
                    request.set_route(i);
                    RouteStep::Try(i, data)
                },
                None => RouteStep::Done(Outcome::Forward(data)),
            },
            other => RouteStep::Done(other),
        }
    }
}

/// The `Set-Cookie` headers for cookies set while handling, in order.
pub open spec fn cookie_headers(delta: Seq<CookieView>) -> Seq<HeaderView> {
    delta.map_values(|c: CookieView| ("Set-Cookie"@, cookie_pair(c.0, c.1)))
}

/// `r` with `hs` added after its headers.
pub open spec fn with_added_headers<B>(r: ResponseView<B>, hs: Seq<HeaderView>) -> ResponseView<B> {
    ResponseView { headers: r.headers + hs, ..r }
}

/// What follows the outcome of routing.
pub enum AfterRoute<B, S> {
    /// Send this response.
    Respond(Response<B>),
    /// A `HEAD` request found no route: it was turned into a `GET`; dispatch
    /// it again with this data, then strip the body of the response.
    Retry(Data<S>),
    /// Answer with the catcher for this status.
    Catch(Status),
}

/// Decides what follows the outcome of routing a request. A success is sent
/// with a `Set-Cookie` header for each cookie set while handling. A forward
/// of a `HEAD` request is retried as `GET`; any other forward is answered
/// with 404 Not Found. A failure is answered by the catcher for its status.
pub fn after_route<B, S>(request: &mut Request, outcome: HandlerOutcome<B, S>) -> (next: AfterRoute<B, S>)
    ensures
        match outcome {
            Outcome::Success(resp) => {
                &&& final(request)@ == old(request)@
                &&& next matches AfterRoute::Respond(r) && r@ == with_added_headers(
                    resp@,
                    cookie_headers(old(request)@.delta),
                )
            },
            Outcome::Forward(data) => if old(request)@.method == Method::Head {
                &&& final(request)@ == (RequestView { method: Method::Get, ..old(request)@ })
                &&& next == AfterRoute::<B, S>::Retry(data)
            } else {
                &&& final(request)@ == old(request)@
                &&& next matches AfterRoute::Catch(s) && s.code == 404
            },
            Outcome::Failure(status) => {
                &&& final(request)@ == old(request)@
                &&& next matches AfterRoute::Catch(s) && s == status
            },
        },
{
    match outcome {
        Outcome::Success(response) => {
            let mut response = response;
            let ghost start = response@;
            let n = request.delta_len();
            let ghost delta = request@.delta;
            let mut i: usize = 0;
            while i < n
                invariant
                    i <= n,
                    n == delta.len(),
                    delta == request@.delta,
                    response@ == with_added_headers(start, cookie_headers(delta.take(i as int))),
                decreases n - i,
            {
                let h = request.delta_header(i);
                response.adjoin_header(h);
                assert(cookie_headers(delta.take((i + 1) as int)) =~= cookie_headers(delta.take(i as int)).push(
                    ("Set-Cookie"@, cookie_pair(delta[i as int].0, delta[i as int].1)),
                ));
                assert(response@.headers =~= start.headers + cookie_headers(delta.take((i + 1) as int)));
                i += 1;
            }
            assert(delta.take(n as int) =~= delta);
            AfterRoute::Respond(response)
        },
        Outcome::Forward(data) => {
            if request.method() == Method::Head {
                request.set_method(Method::Get);
                AfterRoute::Retry(data)
            } else {
                AfterRoute::Catch(Status::not_found())
            }
        },
        Outcome::Failure(status) => AfterRoute::Catch(status),
    }
}

/// `r` with the `Server: Rocket` header set.
pub open spec fn with_server_header<B>(r: ResponseView<B>) -> ResponseView<B> {
    with_header(r, "Server"@, "Rocket"@)
}

/// Sets the `Server: Rocket` header on every response that leaves Rocket.
pub fn finish_response<B>(response: &mut Response<B>)
    ensures
        final(response)@ == with_server_header(old(response)@),
{
    response.set_header(Header::new("Server", "Rocket"));
}

proof fn lemma_matching_upto<H>(rs: Seq<RouteView<H>>, req: RequestView, n: int)
    requires
        0 <= n <= rs.len(),
    ensures
        forall|k: int| 0 <= k < n ==> (matching_upto(rs, req, n).contains(k) <==> route_matches(rs[k], req)),
        forall|i: int| 0 <= i < matching_upto(rs, req, n).len() ==> 0 <= #[trigger] matching_upto(rs, req, n)[i] < n,
        forall|i: int, j: int| 0 <= i < j < matching_upto(rs, req, n).len() ==> matching_upto(rs, req, n)[i] < matching_upto(rs, req, n)[j],
    decreases n,
{
    if n > 0 {
        lemma_matching_upto(rs, req, n - 1);
        let prev = matching_upto(rs, req, n - 1);
        let cur = matching_upto(rs, req, n);
        if route_matches(rs[n - 1], req) {
            assert(cur == prev.push(n - 1));
            assert forall|k: int| 0 <= k < n implies (cur.contains(k) <==> route_matches(rs[k], req)) by {
                if k < n - 1 {
                    if prev.contains(k) {
                        let t = choose|t: int| 0 <= t < prev.len() && prev[t] == k;
                        assert(cur[t] == k);
                    }
                    if cur.contains(k) {
                        let t = choose|t: int| 0 <= t < cur.len() && cur[t] == k;
                        if t == prev.len() {
                            assert(cur[t] == n - 1);
                        } else {
                            assert(prev[t] == k);
                        }
                    }
                } else {
                    assert(cur[prev.len() as int] == n - 1);
                }
            }
        } else {
            assert forall|k: int| 0 <= k < n implies (cur.contains(k) <==> route_matches(rs[k], req)) by {
                if k == n - 1 && cur.contains(k) {
                    let t = choose|t: int| 0 <= t < cur.len() && cur[t] == k;
                    assert(prev[t] < n - 1);
                }
            }
        }
    }
}

/// The routes tried for a request are exactly the mounted routes that match
/// it (same method, matching path), each once, in the order they are kept,
/// which is by rank.
pub proof fn matching_routes_are_the_matches<H>(rs: Seq<RouteView<H>>, req: RequestView)
    ensures
        forall|k: int| 0 <= k < rs.len() ==> (matching_routes(rs, req).contains(k) <==> route_matches(rs[k], req)),
        forall|i: int| 0 <= i < matching_routes(rs, req).len() ==> 0 <= #[trigger] matching_routes(rs, req)[i] < rs.len(),
        forall|i: int, j: int| 0 <= i < j < matching_routes(rs, req).len() ==> matching_routes(rs, req)[i] < matching_routes(rs, req)[j],
{
    lemma_matching_upto(rs, req, rs.len() as int);
}

/// Two routes collide only when some request would be matched by both:
/// launch is refused for a collision only when a request could not tell the
/// two routes apart.
pub proof fn collision_is_common_match<H>(a: RouteView<H>, b: RouteView<H>)
    requires
        routes_collide(a, b),
    ensures
        exists|req: RequestView| route_matches(a, req) && route_matches(b, req),
{
    crate::router::colliding_paths_share_a_request(a.uri, b.uri);
    let u = choose|u: Seq<char>| path_matches(a.uri, u) && path_matches(b.uri, u);
    let req = RequestView {
        method: a.method,
        uri: u,
        headers: Seq::empty(),
        remote: None,
        cookies: Seq::empty(),
        delta: Seq::empty(),
        route: None,
    };
    assert(route_matches(a, req) && route_matches(b, req));
}

/// Some two routes that some request could both be matched by, with the
/// same rank.
pub open spec fn ambiguous_routes<H>(rs: Seq<RouteView<H>>) -> bool {
    exists|i: int, j: int, req: RequestView|
        0 <= i < j < rs.len() && rs[i].rank == rs[j].rank && #[trigger] route_matches(rs[i], req)
            && #[trigger] route_matches(rs[j], req)
}

/// The check before launch finds a collision exactly when two mounted routes
/// of the same rank would both be matched by some request.
pub proof fn collision_check_is_exact<H>(rs: Seq<RouteView<H>>)
    ensures
        any_collision(rs) <==> ambiguous_routes(rs),
{
    if any_collision(rs) {
        let (i, j) = choose|i: int, j: int| 0 <= i < j < rs.len() && routes_collide(rs[i], rs[j]);
        collision_is_common_match(rs[i], rs[j]);
        let req = choose|req: RequestView| route_matches(rs[i], req) && route_matches(rs[j], req);
        assert(0 <= i < j < rs.len() && rs[i].rank == rs[j].rank && route_matches(rs[i], req)
            && route_matches(rs[j], req));
    }
    if ambiguous_routes(rs) {
        let (i, j, req) = choose|i: int, j: int, req: RequestView|
            0 <= i < j < rs.len() && rs[i].rank == rs[j].rank && #[trigger] route_matches(rs[i], req)
                && #[trigger] route_matches(rs[j], req);
        common_match_is_collision(rs[i], rs[j], req);
        assert(0 <= i < j < rs.len() && routes_collide(rs[i], rs[j]));
    }
}

/// A successful response goes out with its own headers first, then one
/// `Set-Cookie: name=value` header for each cookie set while handling, in
/// the order they were set; its status and body are its own.
pub proof fn cookies_are_sent_back<B>(r: ResponseView<B>, delta: Seq<CookieView>)
    ensures
        with_added_headers(r, cookie_headers(delta)).headers.len() == r.headers.len() + delta.len(),
        with_added_headers(r, cookie_headers(delta)).headers.take(r.headers.len() as int) == r.headers,
        forall|i: int| 0 <= i < delta.len() ==> #[trigger] with_added_headers(r, cookie_headers(delta)).headers[
            r.headers.len() + i] == ("Set-Cookie"@, delta[i].0 + seq!['='] + delta[i].1),
        with_added_headers(r, cookie_headers(delta)).status == r.status,
        with_added_headers(r, cookie_headers(delta)).body == r.body,
{
    let hs = with_added_headers(r, cookie_headers(delta)).headers;
    assert(hs.take(r.headers.len() as int) =~= r.headers);
}

/// Every response that leaves Rocket names it in the `Server` header, the
/// only one of that name, and keeps every header of another name (such as
/// `Server-Timing`), in order; its status and body stay as they were.
pub proof fn server_header_is_set<B>(r: ResponseView<B>)
    ensures
        crate::http::first_value(with_server_header(r).headers, "Server"@) == Some("Rocket"@),
        with_server_header(r).headers == crate::http::other_names(r.headers, "Server"@).push(("Server"@, "Rocket"@)),
        with_server_header(r).status == r.status,
        with_server_header(r).body == r.body,
{
    crate::http::replace_then_get(r.headers, "Server"@, "Rocket"@);
    crate::http::remove_keeps_other_names(r.headers, "Server"@);
}

} // verus!
