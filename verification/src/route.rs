//! The two-stage route candidate pipeline: geometry/existence filtering
//! (Abstract stage), then aircraft- and ruleset-dependent narrowing (Concrete
//! stage). Distances are carried in thousandths of a distance unit, so the
//! boundary rules are exact.

use crate::aircraft::Aircraft;
use crate::aircraft::AircraftView;
use crate::airport::Airport;
use crate::airport::AirportView;
use crate::airport::db::Airports;
use crate::airport::db::AirportsView;
use crate::airport::db::SearchKey;
use crate::airport::db::SearchKeyView;
use crate::airport::db::find_key;
use crate::user::GameMode;
use vstd::prelude::*;

verus! {

/// Floor on the direct distance of a route, in thousandths of a distance
/// unit: shorter routes are rejected by the Abstract stage.
pub const MIN_DISTANCE_MILLI: u64 = 100_000;

/// Why a candidate destination was rejected, with the offending record and,
/// where a metric was measured, the value and the threshold it failed.
#[derive(Debug)]
pub enum RouteError {
    /// The destination is not in the index.
    AirportNotFound(Airport),
    /// The destination is the origin itself.
    SelfReferential(Airport),
    /// The direct distance (in thousandths) is below `MIN_DISTANCE_MILLI`.
    DistanceTooShort(Airport, u64),
    /// The direct distance (in thousandths) reaches the aircraft's round-trip
    /// ceiling (also in thousandths), carried as the second value.
    DistanceAboveRange(Airport, u64, u64),
    /// Under the strict ruleset, the destination's runway is shorter than the
    /// aircraft requires.
    RunwayTooShort(Airport),
}

/// The mathematical content of a `RouteError`.
pub enum RouteErrorView {
    AirportNotFound(AirportView),
    SelfReferential(AirportView),
    DistanceTooShort(AirportView, u64),
    DistanceAboveRange(AirportView, u64, u64),
    RunwayTooShort(AirportView),
}

impl View for RouteError {
    type V = RouteErrorView;

    open spec fn view(&self) -> RouteErrorView {
        match self {
            RouteError::AirportNotFound(a) => RouteErrorView::AirportNotFound(a@),
            RouteError::SelfReferential(a) => RouteErrorView::SelfReferential(a@),
            RouteError::DistanceTooShort(a, d) => RouteErrorView::DistanceTooShort(a@, *d),
            RouteError::DistanceAboveRange(a, d, t) => RouteErrorView::DistanceAboveRange(
                a@,
                *d,
                *t,
            ),
            RouteError::RunwayTooShort(a) => RouteErrorView::RunwayTooShort(a@),
        }
    }
}

/// The mathematical content of a `CheckedAirport`.
pub struct CheckedAirportView {
    pub airport: AirportView,
    pub idx: usize,
}

/// A destination validated against the index: holding one is proof that the
/// record is known, and `idx` is its position in the record store (usable to
/// address auxiliary per-record tables).
#[derive(Debug)]
pub struct CheckedAirport {
    airport: Airport,
    idx: usize,
}

impl View for CheckedAirport {
    type V = CheckedAirportView;

    closed spec fn view(&self) -> CheckedAirportView {
        CheckedAirportView { airport: self.airport@, idx: self.idx }
    }
}

impl Clone for CheckedAirport {
    fn clone(&self) -> (r: Self)
        ensures
            r@ == self@,
    {
        CheckedAirport { airport: self.airport.clone(), idx: self.idx }
    }
}

impl CheckedAirport {
    /// Check that the airport is known to the index; the position is what its
    /// identifier key maps to.
    pub fn new(airports: &Airports, airport: &Airport) -> (r: Result<CheckedAirport, RouteError>)
        ensures
            match find_key(airports@.index, SearchKeyView::Id(airport@.id)) {
                Some(i) => (r matches Ok(c) && c@ == (CheckedAirportView {
                    airport: airport@,
                    idx: i,
                })),
                None => (r matches Err(e) && e@ == RouteErrorView::AirportNotFound(airport@)),
            },
    {
        match airports.find(&SearchKey::from_id(airport.id)) {
            Some(i) => Ok(CheckedAirport { airport: airport.clone(), idx: i }),
            None => Err(RouteError::AirportNotFound(airport.clone())),
        }
    }

    /// The validated record.
    pub fn airport(&self) -> (r: &Airport)
        ensures
            r@ == self@.airport,
    {
        &self.airport
    }

    /// The record's position in the store.
    pub fn idx(&self) -> (r: usize)
        ensures
            r == self@.idx,
    {
        self.idx
    }
}

/// The mathematical content of an `AbstractRoute`.
pub struct AbstractRouteView {
    pub destination: CheckedAirportView,
    pub direct_distance: u64,
}

/// A destination that passed the Abstract stage, with the direct distance
/// from the origin (in thousandths of a distance unit).
#[derive(Debug)]
pub struct AbstractRoute {
    destination: CheckedAirport,
    direct_distance: u64,
}

impl View for AbstractRoute {
    type V = AbstractRouteView;

    closed spec fn view(&self) -> AbstractRouteView {
        AbstractRouteView { destination: self.destination@, direct_distance: self.direct_distance }
    }
}

impl Clone for AbstractRoute {
    fn clone(&self) -> (r: Self)
        ensures
            r@ == self@,
    {
        AbstractRoute {
            destination: self.destination.clone(),
            direct_distance: self.direct_distance,
        }
    }
}

impl AbstractRoute {
    /// The validated destination.
    pub fn destination(&self) -> (r: &CheckedAirport)
        ensures
            r@ == self@.destination,
    {
        &self.destination
    }

    /// Direct distance from the origin, in thousandths of a distance unit.
    pub fn direct_distance(&self) -> (r: u64)
        ensures
            r == self@.direct_distance,
    {
        self.direct_distance
    }
}

/// The Abstract stage's decision for one destination: rejected when it is the
/// origin itself, unknown to the index, or nearer than the distance floor;
/// accepted otherwise, with the distance attached.
pub open spec fn abstract_route_spec(
    db: AirportsView,
    origin: AirportView,
    dest: AirportView,
    dist: u64,
) -> Result<AbstractRouteView, RouteErrorView> {
    if dest.id == origin.id {
        Err(RouteErrorView::SelfReferential(dest))
    } else {
        match find_key(db.index, SearchKeyView::Id(dest.id)) {
            None => Err(RouteErrorView::AirportNotFound(dest)),
            Some(i) => {
                if dist < MIN_DISTANCE_MILLI {
                    Err(RouteErrorView::DistanceTooShort(dest, dist))
                } else {
                    Ok(
                        AbstractRouteView {
                            destination: CheckedAirportView { airport: dest, idx: i },
                            direct_distance: dist,
                        },
                    )
                }
            },
        }
    }
}

impl AbstractRoute {
    /// One candidate of the Abstract stage.
    fn new(
        airports: &Airports,
        origin: &Airport,
        destination: &Airport,
        distance_milli: u64,
    ) -> (r: Result<Self, RouteError>)
        ensures
            match abstract_route_spec(airports@, origin@, destination@, distance_milli) {
                Ok(v) => (r matches Ok(a) && a@ == v),
                Err(e) => (r matches Err(e2) && e2@ == e),
            },
    {
        if destination.id.0 == origin.id.0 {
            Err(RouteError::SelfReferential(destination.clone()))
        } else {
            match CheckedAirport::new(airports, destination) {
                Err(e) => Err(e),
                Ok(checked) => {
                    if distance_milli < MIN_DISTANCE_MILLI {
                        Err(RouteError::DistanceTooShort(destination.clone(), distance_milli))
                    } else {
                        Ok(AbstractRoute { destination: checked, direct_distance: distance_milli })
                    }
                },
            }
        }
    }
}

/// The mathematical content of a stage result.
pub struct RoutesView<RV, CV> {
    pub routes: Seq<RV>,
    pub errors: Seq<RouteErrorView>,
    pub config: CV,
}

/// A stage result: the surviving routes, the rejection diagnostics gathered
/// so far (never dropped), and the stage's configuration.
#[derive(Debug)]
pub struct Routes<R, C> {
    routes: Vec<R>,
    errors: Vec<RouteError>,
    config: C,
}

impl<R: View, C: View> View for Routes<R, C> {
    type V = RoutesView<<R as View>::V, <C as View>::V>;

    closed spec fn view(&self) -> RoutesView<<R as View>::V, <C as View>::V> {
        RoutesView {
            routes: self.routes@.map_values(|x: R| x@),
            errors: self.errors@.map_values(|e: RouteError| e@),
            config: self.config@,
        }
    }
}

impl<R: View, C: View> Routes<R, C> {
    /// The surviving routes of this stage.
    pub fn routes(&self) -> (r: &Vec<R>)
        ensures
            r@.map_values(|x: R| x@) == self@.routes,
    {
        &self.routes
    }

    /// The rejection diagnostics gathered so far.
    pub fn errors(&self) -> (r: &Vec<RouteError>)
        ensures
            r@.map_values(|e: RouteError| e@) == self@.errors,
    {
        &self.errors
    }

    /// The stage's configuration.
    pub fn config(&self) -> (r: &C)
        ensures
            r@ == self@.config,
    {
        &self.config
    }
}

/// The mathematical content of an `AbstractConfig`.
pub struct AbstractConfigView {
    pub origin: CheckedAirportView,
}

/// Context of the Abstract stage: the validated origin.
#[derive(Debug)]
pub struct AbstractConfig {
    origin: CheckedAirport,
}

impl View for AbstractConfig {
    type V = AbstractConfigView;

    closed spec fn view(&self) -> AbstractConfigView {
        AbstractConfigView { origin: self.origin@ }
    }
}

impl AbstractConfig {
    /// The validated origin.
    pub fn origin(&self) -> (r: &CheckedAirport)
        ensures
            r@ == self@.origin,
    {
        &self.origin
    }
}

/// The mathematical content of a `ConcreteConfig`.
pub struct ConcreteConfigView {
    pub origin: CheckedAirportView,
    pub aircraft: AircraftView,
    pub game_mode: GameMode,
}

/// Context carried forward by the Concrete stage: origin, aircraft and
/// ruleset.
#[derive(Debug)]
pub struct ConcreteConfig {
    origin: CheckedAirport,
    aircraft: Aircraft,
    game_mode: GameMode,
}

impl View for ConcreteConfig {
    type V = ConcreteConfigView;

    closed spec fn view(&self) -> ConcreteConfigView {
        ConcreteConfigView {
            origin: self.origin@,
            aircraft: self.aircraft@,
            game_mode: self.game_mode,
        }
    }
}

impl ConcreteConfig {
    /// The validated origin.
    pub fn origin(&self) -> (r: &CheckedAirport)
        ensures
            r@ == self@.origin,
    {
        &self.origin
    }

    /// The aircraft the routes were narrowed for.
    pub fn aircraft(&self) -> (r: &Aircraft)
        ensures
            r@ == self@.aircraft,
    {
        &self.aircraft
    }

    /// The ruleset the routes were narrowed under.
    pub fn game_mode(&self) -> (r: GameMode)
        ensures
            r == self@.game_mode,
    {
        self.game_mode
    }
}

/// Destinations validated for geometry and existence.
pub type AbstractRoutes = Routes<AbstractRoute, AbstractConfig>;

/// Abstract routes further narrowed by aircraft range and ruleset runway
/// rules.
pub type ConcreteRoutes = Routes<AbstractRoute, ConcreteConfig>;

/// The accepted candidates of the Abstract stage over the first `n`
/// destinations, in input order.
pub open spec fn abstract_accepted(
    db: AirportsView,
    origin: AirportView,
    dests: Seq<AirportView>,
    dists: Seq<u64>,
    n: int,
) -> Seq<AbstractRouteView>
    decreases n,
{
    if n <= 0 {
        Seq::empty()
    } else {
        let pre = abstract_accepted(db, origin, dests, dists, n - 1);
        match abstract_route_spec(db, origin, dests[n - 1], dists[n - 1]) {
            Ok(v) => pre.push(v),
            Err(_) => pre,
        }
    }
}

/// The rejection diagnostics of the Abstract stage over the first `n`
/// destinations, in input order: one per rejected candidate, none dropped.
pub open spec fn abstract_rejected(
    db: AirportsView,
    origin: AirportView,
    dests: Seq<AirportView>,
    dists: Seq<u64>,
    n: int,
) -> Seq<RouteErrorView>
    decreases n,
{
    if n <= 0 {
        Seq::empty()
    } else {
        let pre = abstract_rejected(db, origin, dests, dists, n - 1);
        match abstract_route_spec(db, origin, dests[n - 1], dists[n - 1]) {
            Ok(_) => pre,
            Err(e) => pre.push(e),
        }
    }
}

impl AbstractRoutes {
    /// The Abstract stage: validate the origin, then each destination
    /// independently (a rejection never aborts the batch). Each destination's
    /// direct distance from the origin, in thousandths of a distance unit, is
    /// supplied alongside it.
    pub fn new(
        airports: &Airports,
        origin: &Airport,
        destinations: &Vec<Airport>,
        distances_milli: &Vec<u64>,
    ) -> (r: Result<AbstractRoutes, RouteError>)
        requires
            distances_milli@.len() == destinations@.len(),
        ensures
            ({
                let dv = destinations@.map_values(|a: Airport| a@);
                match find_key(airports@.index, SearchKeyView::Id(origin@.id)) {
                    None => (r matches Err(e) && e@ == RouteErrorView::AirportNotFound(origin@)),
                    Some(oi) => (r matches Ok(rs) && {
                        &&& rs@.routes == abstract_accepted(
                            airports@,
                            origin@,
                            dv,
                            distances_milli@,
                            dv.len() as int,
                        )
                        &&& rs@.errors == abstract_rejected(
                            airports@,
                            origin@,
                            dv,
                            distances_milli@,
                            dv.len() as int,
                        )
                        &&& rs@.config.origin == (CheckedAirportView { airport: origin@, idx: oi })
                    }),
                }
            }),
    {
        let ghost dv = destinations@.map_values(|a: Airport| a@);
        let checked_origin = match CheckedAirport::new(airports, origin) {
            Ok(c) => c,
            Err(e) => {
                return Err(e);
            },
        };
        let mut routes: Vec<AbstractRoute> = Vec::new();
        let mut errors: Vec<RouteError> = Vec::new();
        proof {
            assert(routes@.map_values(|x: AbstractRoute| x@) =~= Seq::<AbstractRouteView>::empty());
            assert(errors@.map_values(|e: RouteError| e@) =~= Seq::<RouteErrorView>::empty());
        }
        let n = destinations.len();
        let mut i: usize = 0;
        while i < n
            invariant
                0 <= i <= n,
                n == destinations@.len(),
                distances_milli@.len() == destinations@.len(),
                dv == destinations@.map_values(|a: Airport| a@),
                routes@.map_values(|x: AbstractRoute| x@) == abstract_accepted(
                    airports@,
                    origin@,
                    dv,
                    distances_milli@,
                    i as int,
                ),
                errors@.map_values(|e: RouteError| e@) == abstract_rejected(
                    airports@,
                    origin@,
                    dv,
                    distances_milli@,
                    i as int,
                ),
            decreases n - i,
        {
            let ghost routes_pre = routes@.map_values(|x: AbstractRoute| x@);
            let ghost errors_pre = errors@.map_values(|e: RouteError| e@);
            match AbstractRoute::new(airports, origin, &destinations[i], distances_milli[i]) {
                Ok(rt) => {
                    let ghost rv = rt@;
                    routes.push(rt);
                    proof {
                        assert(routes@.map_values(|x: AbstractRoute| x@) =~= routes_pre.push(rv));
                    }
                },
                Err(e) => {
                    let ghost ev = e@;
                    errors.push(e);
                    proof {
                        assert(errors@.map_values(|e: RouteError| e@) =~= errors_pre.push(ev));
                    }
                },
            }
            i = i + 1;
        }
        Ok(Routes { routes, errors, config: AbstractConfig { origin: checked_origin } })
    }
}

/// The Concrete stage's range rule: the direct distance must stay strictly
/// below twice the aircraft's one-way range (the round-trip ceiling, here in
/// thousandths); a distance exactly at the ceiling is rejected.
pub open spec fn distance_ok(r: AbstractRouteView, ac: AircraftView) -> bool {
    (r.direct_distance as int) < (ac.range as int) * 2000
}

/// The Concrete stage's runway rule: waived under the permissive ruleset;
/// under the strict one the destination's runway must be at least as long as
/// the aircraft requires (equal lengths pass).
pub open spec fn runway_ok(r: AbstractRouteView, ac: AircraftView, gm: GameMode) -> bool {
    match gm {
        GameMode::Easy => true,
        GameMode::Realism => r.destination.airport.rwy >= ac.rwy,
    }
}

/// Whether a route survives the Concrete stage.
pub open spec fn route_keeps(r: AbstractRouteView, ac: AircraftView, gm: GameMode) -> bool {
    distance_ok(r, ac) && runway_ok(r, ac, gm)
}

/// The diagnostic of a route the Concrete stage rejects: the range rule is
/// checked first.
pub open spec fn concrete_diag(
    r: AbstractRouteView,
    ac: AircraftView,
    gm: GameMode,
) -> RouteErrorView {
    if !distance_ok(r, ac) {
        RouteErrorView::DistanceAboveRange(
            r.destination.airport,
            r.direct_distance,
            ((ac.range as int) * 2000) as u64,
        )
    } else {
        RouteErrorView::RunwayTooShort(r.destination.airport)
    }
}

/// The survivors of the Concrete stage over the first `n` routes, in order:
/// the stage only removes candidates, never reorders or adds.
pub open spec fn narrowed(
    s: Seq<AbstractRouteView>,
    ac: AircraftView,
    gm: GameMode,
    n: int,
) -> Seq<AbstractRouteView>
    decreases n,
{
    if n <= 0 {
        Seq::empty()
    } else {
        let pre = narrowed(s, ac, gm, n - 1);
        if route_keeps(s[n - 1], ac, gm) {
            pre.push(s[n - 1])
        } else {
            pre
        }
    }
}

/// The diagnostics the Concrete stage appends over the first `n` routes, in
/// order.
pub open spec fn narrow_diags(
    s: Seq<AbstractRouteView>,
    ac: AircraftView,
    gm: GameMode,
    n: int,
) -> Seq<RouteErrorView>
    decreases n,
{
    if n <= 0 {
        Seq::empty()
    } else {
        let pre = narrow_diags(s, ac, gm, n - 1);
        if route_keeps(s[n - 1], ac, gm) {
            pre
        } else {
            pre.push(concrete_diag(s[n - 1], ac, gm))
        }
    }
}

/// The range rule, decided on a route.
fn distance_valid(route: &AbstractRoute, aircraft: &Aircraft) -> (r: bool)
    ensures
        r == distance_ok(route@, aircraft@),
{
    route.direct_distance < (aircraft.range as u64) * 2000
}

/// The runway rule, decided on a route under a ruleset.
fn runway_valid(route: &AbstractRoute, aircraft: &Aircraft, game_mode: &GameMode) -> (r: bool)
    ensures
        r == runway_ok(route@, aircraft@, *game_mode),
{
    match game_mode {
        GameMode::Easy => true,
        GameMode::Realism => route.destination.airport.rwy >= aircraft.rwy,
    }
}

impl AbstractRoutes {
    /// The Concrete stage: consume the Abstract result and narrow it by the
    /// aircraft's range rule, then the ruleset's runway rule. Survivors keep
    /// their order; every removal appends its diagnostic to the diagnostics
    /// already gathered, so the combined collection explains the whole batch.
    pub fn with_aircraft(self, aircraft: &Aircraft, game_mode: &GameMode) -> (r: ConcreteRoutes)
        ensures
            r@.routes == narrowed(self@.routes, aircraft@, *game_mode, self@.routes.len() as int),
            r@.errors == self@.errors + narrow_diags(
                self@.routes,
                aircraft@,
                *game_mode,
                self@.routes.len() as int,
            ),
            r@.config == (ConcreteConfigView {
                origin: self@.config.origin,
                aircraft: aircraft@,
                game_mode: *game_mode,
            }),
    {
        let Routes { routes, mut errors, config } = self;
        let ghost rv = routes@.map_values(|x: AbstractRoute| x@);
        let ghost errors0 = errors@.map_values(|e: RouteError| e@);
        let mut kept: Vec<AbstractRoute> = Vec::new();
        proof {
            assert(kept@.map_values(|x: AbstractRoute| x@) =~= Seq::<AbstractRouteView>::empty());
            assert(errors0 + Seq::<RouteErrorView>::empty() =~= errors0);
        }
        let n = routes.len();
        let mut i: usize = 0;
        while i < n
            invariant
                0 <= i <= n,
                n == routes@.len(),
                rv == routes@.map_values(|x: AbstractRoute| x@),
                rv.len() == n,
                kept@.map_values(|x: AbstractRoute| x@) == narrowed(
                    rv,
                    aircraft@,
                    *game_mode,
                    i as int,
                ),
                errors@.map_values(|e: RouteError| e@) == errors0 + narrow_diags(
                    rv,
                    aircraft@,
                    *game_mode,
                    i as int,
                ),
            decreases n - i,
        {
            let ghost kept_pre = kept@.map_values(|x: AbstractRoute| x@);
            let ghost errors_pre = errors@.map_values(|e: RouteError| e@);
            let route = &routes[i];
            if !distance_valid(route, aircraft) {
                let threshold = (aircraft.range as u64) * 2000;
                let e = RouteError::DistanceAboveRange(
                    route.destination.airport.clone(),
                    route.direct_distance,
                    threshold,
                );
                let ghost ev = e@;
                errors.push(e);
                proof {
                    assert(ev == concrete_diag(rv[i as int], aircraft@, *game_mode));
                    assert(errors@.map_values(|e: RouteError| e@) =~= errors_pre.push(ev));
                    assert(errors_pre.push(ev) =~= errors0 + narrow_diags(
                        rv,
                        aircraft@,
                        *game_mode,
                        i + 1,
                    ));
                }
            } else if !runway_valid(route, aircraft, game_mode) {
                let e = RouteError::RunwayTooShort(route.destination.airport.clone());
                let ghost ev = e@;
                errors.push(e);
                proof {
                    assert(ev == concrete_diag(rv[i as int], aircraft@, *game_mode));
                    assert(errors@.map_values(|e: RouteError| e@) =~= errors_pre.push(ev));
                    assert(errors_pre.push(ev) =~= errors0 + narrow_diags(
                        rv,
                        aircraft@,
                        *game_mode,
                        i + 1,
                    ));
                }
            } else {
                let ghost kv = route@;
                kept.push(route.clone());
                proof {
                    assert(kept@.map_values(|x: AbstractRoute| x@) =~= kept_pre.push(kv));
                }
            }
            i = i + 1;
        }
        Routes {
            routes: kept,
            errors,
            config: ConcreteConfig {
                origin: config.origin,
                aircraft: aircraft.clone(),
                game_mode: *game_mode,
            },
        }
    }
}

// ---------------------------------------------------------------------------
// Laws
// ---------------------------------------------------------------------------

proof fn lemma_narrowed_take(
    s: Seq<AbstractRouteView>,
    ac: AircraftView,
    gm: GameMode,
    n: int,
)
    requires
        0 <= n <= s.len(),
    ensures
        narrowed(s, ac, gm, n) == s.take(n).filter(
            |r: AbstractRouteView| route_keeps(r, ac, gm),
        ),
        narrowed(s, ac, gm, n).len() + narrow_diags(s, ac, gm, n).len() == n,
    decreases n,
{
    reveal(Seq::filter);
    let pred = |r: AbstractRouteView| route_keeps(r, ac, gm);
    if n == 0 {
        assert(s.take(0) =~= Seq::<AbstractRouteView>::empty());
    } else {
        lemma_narrowed_take(s, ac, gm, n - 1);
        let t = s.take(n);
        assert(t.drop_last() =~= s.take(n - 1));
        assert(t.last() == s[n - 1]);
    }
}

/// Monotonic narrowing: the Concrete stage's survivors are exactly the
/// ordered filter of its input — no candidate is added or reordered — and
/// every removed candidate is accounted for by exactly one diagnostic.
pub proof fn lemma_monotonic_narrowing(s: Seq<AbstractRouteView>, ac: AircraftView, gm: GameMode)
    ensures
        narrowed(s, ac, gm, s.len() as int) == s.filter(
            |r: AbstractRouteView| route_keeps(r, ac, gm),
        ),
        narrowed(s, ac, gm, s.len() as int).len() + narrow_diags(
            s,
            ac,
            gm,
            s.len() as int,
        ).len() == s.len(),
{
    lemma_narrowed_take(s, ac, gm, s.len() as int);
    assert(s.take(s.len() as int) =~= s);
}

proof fn lemma_batch_independence_to(
    db: AirportsView,
    origin: AirportView,
    dests: Seq<AirportView>,
    dists: Seq<u64>,
    bad: int,
    n: int,
)
    requires
        dists.len() == dests.len(),
        0 <= bad < dests.len(),
        dests[bad].id == origin.id,
        forall|i: int|
            0 <= i < dests.len() && i != bad ==> (#[trigger] dests[i]).id != origin.id && find_key(
                db.index,
                SearchKeyView::Id(dests[i].id),
            ) is Some && dists[i] >= MIN_DISTANCE_MILLI,
        0 <= n <= dests.len(),
    ensures
        n <= bad ==> abstract_rejected(db, origin, dests, dists, n) == Seq::<
            RouteErrorView,
        >::empty() && abstract_accepted(db, origin, dests, dists, n).len() == n,
        n > bad ==> abstract_rejected(db, origin, dests, dists, n) == seq![
            RouteErrorView::SelfReferential(dests[bad]),
        ] && abstract_accepted(db, origin, dests, dists, n).len() == n - 1,
    decreases n,
{
    if n > 0 {
        lemma_batch_independence_to(db, origin, dests, dists, bad, n - 1);
        if n - 1 == bad {
            assert(abstract_route_spec(db, origin, dests[n - 1], dists[n - 1])
                == Err::<AbstractRouteView, RouteErrorView>(
                RouteErrorView::SelfReferential(dests[bad]),
            ));
            assert(Seq::<RouteErrorView>::empty().push(RouteErrorView::SelfReferential(dests[bad]))
                =~= seq![RouteErrorView::SelfReferential(dests[bad])]);
        } else {
            assert(dests[n - 1].id != origin.id);
            assert(abstract_route_spec(db, origin, dests[n - 1], dists[n - 1]) is Ok);
        }
    }
}

/// Batch independence of the Abstract stage: on a destination list whose one
/// self-referential entry stands among otherwise valid destinations (known to
/// the index and at or above the distance floor), exactly one diagnostic is
/// produced — `SelfReferential`, for that entry — and every other destination
/// is accepted.
pub proof fn lemma_batch_independence(
    db: AirportsView,
    origin: AirportView,
    dests: Seq<AirportView>,
    dists: Seq<u64>,
    bad: int,
)
    requires
        dists.len() == dests.len(),
        0 <= bad < dests.len(),
        dests[bad].id == origin.id,
        forall|i: int|
            0 <= i < dests.len() && i != bad ==> (#[trigger] dests[i]).id != origin.id && find_key(
                db.index,
                SearchKeyView::Id(dests[i].id),
            ) is Some && dists[i] >= MIN_DISTANCE_MILLI,
    ensures
        abstract_rejected(db, origin, dests, dists, dests.len() as int) == seq![
            RouteErrorView::SelfReferential(dests[bad]),
        ],
        abstract_accepted(db, origin, dests, dists, dests.len() as int).len() == dests.len() - 1,
{
    lemma_batch_independence_to(db, origin, dests, dists, bad, dests.len() as int);
}

} // verus!
