//! Routing state: the routes that peers asked to close, and the controller
//! that measures the redundancy of what one peer sends.

use vstd::prelude::*;
use crate::config::Config;
use crate::peer::PeerId;

verus! {

/// "Do not forward to `target` the transactions whose origin is `source`."
#[derive(Debug)]
pub struct Route {
    source: PeerId,
    target: PeerId,
}

pub struct RouteView {
    pub source: Seq<u8>,
    pub target: Seq<u8>,
}

impl View for Route {
    type V = RouteView;

    closed spec fn view(&self) -> RouteView {
        RouteView { source: self.source@, target: self.target@ }
    }
}

impl Clone for Route {
    fn clone(&self) -> (r: Self)
        ensures
            r@ == self@,
    {
        Route { source: self.source.clone(), target: self.target.clone() }
    }
}

impl Route {
    pub fn new(source: PeerId, target: PeerId) -> (r: Self)
        ensures
            r@ == (RouteView { source: source@, target: target@ }),
    {
        Route { source, target }
    }

    pub fn source(&self) -> (r: &PeerId)
        ensures
            r@ == self@.source,
    {
        &self.source
    }

    pub fn target(&self) -> (r: &PeerId)
        ensures
            r@ == self@.target,
    {
        &self.target
    }
}

/// The views of a run of routes.
pub open spec fn routes_view(routes: Seq<Route>) -> Seq<RouteView> {
    Seq::new(routes.len(), |i: int| routes[i]@)
}

/// Whether the route from `source` to `target` is among `routes`.
pub open spec fn spec_route_disabled(routes: Seq<RouteView>, source: Seq<u8>, target: Seq<u8>) -> bool {
    exists|i: int| 0 <= i < routes.len() && #[trigger] routes[i] == (RouteView { source, target })
}

/// Whether `route` has `peer` at either end.
pub open spec fn spec_mentions(route: RouteView, peer: Seq<u8>) -> bool {
    route.source == peer || route.target == peer
}

/// The routes that do not have `peer` at either end, in order.
pub open spec fn spec_without_peer(routes: Seq<RouteView>, peer: Seq<u8>) -> Seq<RouteView>
    decreases routes.len(),
{
    if routes.len() == 0 {
        Seq::empty()
    } else if spec_mentions(routes.last(), peer) {
        spec_without_peer(routes.drop_last(), peer)
    } else {
        spec_without_peer(routes.drop_last(), peer).push(routes.last())
    }
}

/// Those of `targets`, in order, to which the transactions of `source` may
/// still be forwarded.
pub open spec fn spec_valid_targets(
    routes: Seq<RouteView>,
    source: Seq<u8>,
    targets: Seq<Seq<u8>>,
) -> Seq<Seq<u8>>
    decreases targets.len(),
{
    if targets.len() == 0 {
        Seq::empty()
    } else if spec_route_disabled(routes, source, targets.last()) {
        spec_valid_targets(routes, source, targets.drop_last())
    } else {
        spec_valid_targets(routes, source, targets.drop_last()).push(targets.last())
    }
}

/// The law of a reset: among the routes without `peer`, none has `peer` at
/// either end, and every route that is left was there before.
pub proof fn lemma_without_peer(routes: Seq<RouteView>, peer: Seq<u8>)
    ensures
        forall|i: int|
            0 <= i < spec_without_peer(routes, peer).len() ==> !spec_mentions(
                #[trigger] spec_without_peer(routes, peer)[i],
                peer,
            ) && routes.contains(spec_without_peer(routes, peer)[i]),
        forall|i: int|
            0 <= i < routes.len() && !spec_mentions(#[trigger] routes[i], peer)
                ==> spec_without_peer(routes, peer).contains(routes[i]),
        forall|source: Seq<u8>, target: Seq<u8>|
            source == peer || target == peer ==> !#[trigger] spec_route_disabled(
                spec_without_peer(routes, peer),
                source,
                target,
            ),
    decreases routes.len(),
{
    if routes.len() == 0 {
    } else {
        let init = routes.drop_last();
        let kept = spec_without_peer(init, peer);
        let all = spec_without_peer(routes, peer);
        lemma_without_peer(init, peer);
        assert forall|i: int| 0 <= i < all.len() implies !spec_mentions(#[trigger] all[i], peer)
            && routes.contains(all[i]) by {
            if i < kept.len() {
                assert(all[i] == kept[i]);
                let k = choose|k: int| 0 <= k < init.len() && init[k] == kept[i];
                assert(routes[k] == kept[i]);
            } else {
                assert(all[i] == routes[routes.len() - 1]);
            }
        }
        assert forall|i: int|
            0 <= i < routes.len() && !spec_mentions(#[trigger] routes[i], peer) implies all.contains(
            routes[i],
        ) by {
            if i < init.len() {
                assert(init[i] == routes[i]);
                let k = choose|k: int| 0 <= k < kept.len() && kept[k] == init[i];
                assert(all[k] == routes[i]);
            } else {
                assert(all[all.len() - 1] == routes[i]);
            }
        }
    }
}

/// Those of `targets` that pass are exactly those without a closed route.
pub proof fn lemma_valid_targets(routes: Seq<RouteView>, source: Seq<u8>, targets: Seq<Seq<u8>>)
    ensures
        forall|i: int|
            0 <= i < spec_valid_targets(routes, source, targets).len() ==> !spec_route_disabled(
                routes,
                source,
                #[trigger] spec_valid_targets(routes, source, targets)[i],
            ) && targets.contains(spec_valid_targets(routes, source, targets)[i]),
        forall|i: int|
            0 <= i < targets.len() && !spec_route_disabled(routes, source, #[trigger] targets[i])
                ==> spec_valid_targets(routes, source, targets).contains(targets[i]),
    decreases targets.len(),
{
    if targets.len() == 0 {
    } else {
        let init = targets.drop_last();
        let kept = spec_valid_targets(routes, source, init);
        let all = spec_valid_targets(routes, source, targets);
        lemma_valid_targets(routes, source, init);
        assert forall|i: int| 0 <= i < all.len() implies !spec_route_disabled(
            routes,
            source,
            #[trigger] all[i],
        ) && targets.contains(all[i]) by {
            if i < kept.len() {
                assert(all[i] == kept[i]);
                let k = choose|k: int| 0 <= k < init.len() && init[k] == kept[i];
                assert(targets[k] == kept[i]);
            } else {
                assert(all[i] == targets[targets.len() - 1]);
            }
        }
        assert forall|i: int|
            0 <= i < targets.len() && !spec_route_disabled(
                routes,
                source,
                #[trigger] targets[i],
            ) implies all.contains(targets[i]) by {
            if i < init.len() {
                assert(init[i] == targets[i]);
                let k = choose|k: int| 0 <= k < kept.len() && kept[k] == init[i];
                assert(all[k] == targets[i]);
            } else {
                assert(all[all.len() - 1] == targets[i]);
            }
        }
    }
}

/// Calls `rand::seq::IteratorRandom::choose` with the thread's generator on
/// the numbers of `candidates`: `None` if and only if there is none, else one
/// of them.
#[verifier::external_body]
fn choose_index(candidates: &Vec<usize>) -> (r: Option<usize>)
    ensures
        candidates@.len() == 0 <==> r is None,
        r matches Some(index) ==> candidates@.contains(index),
{
    rand::seq::IteratorRandom::choose(candidates.iter().copied(), &mut rand::thread_rng())
}

/// The peer ids of a run of peers.
pub open spec fn peer_ids_view(peers: Seq<PeerId>) -> Seq<Seq<u8>> {
    Seq::new(peers.len(), |i: int| peers[i]@)
}

/// The routes that are closed. A route may be held more than once.
#[derive(Debug)]
pub struct Router {
    disabled_routes: Vec<Route>,
}

impl View for Router {
    type V = Seq<RouteView>;

    closed spec fn view(&self) -> Seq<RouteView> {
        routes_view(self.disabled_routes@)
    }
}

impl Router {
    pub fn new() -> (r: Self)
        ensures
            r@ == Seq::<RouteView>::empty(),
    {
        let r = Router { disabled_routes: Vec::new() };
        assert(r@ =~= Seq::<RouteView>::empty());
        r
    }

    /// Closes the route from `source` to `target`.
    pub fn disable_route(&mut self, source: PeerId, target: PeerId)
        ensures
            final(self)@ == old(self)@.push(RouteView { source: source@, target: target@ }),
    {
        self.disabled_routes.push(Route::new(source, target));
        assert(self@ =~= old(self)@.push(RouteView { source: source@, target: target@ }));
    }

    /// The places of the closed routes to `peer`, in increasing order.
    pub fn route_indices_to(&self, peer: &PeerId) -> (r: Vec<usize>)
        ensures
            forall|k: int| 0 <= k < r@.len() ==> (#[trigger] r@[k]) < self@.len() && self@[r@[k] as int].target == peer@,
            forall|i: int|
                0 <= i < self@.len() && (#[trigger] self@[i]).target == peer@ ==> r@.contains(
                    i as usize,
                ),
            forall|j: int, k: int| 0 <= j < k < r@.len() ==> r@[j] < r@[k],
    {
        let mut out: Vec<usize> = Vec::new();
        let mut i: usize = 0;
        while i < self.disabled_routes.len()
            invariant
                i <= self.disabled_routes@.len(),
                forall|k: int| 0 <= k < out@.len() ==> (#[trigger] out@[k]) < i && self@[out@[k] as int].target == peer@,
                forall|j: int|
                    0 <= j < i && (#[trigger] self@[j]).target == peer@ ==> out@.contains(
                        j as usize,
                    ),
                forall|j: int, k: int| 0 <= j < k < out@.len() ==> out@[j] < out@[k],
            decreases self.disabled_routes@.len() - i,
        {
            if self.disabled_routes[i].target().same(peer) {
                let ghost before = out@;
                out.push(i);
                assert forall|j: int|
                    0 <= j < i + 1 && (#[trigger] self@[j]).target == peer@ implies out@.contains(
                    j as usize,
                ) by {
                    if j < i {
                        let k = choose|k: int| 0 <= k < before.len() && before[k] == j as usize;
                        assert(out@[k] == j as usize);
                    } else {
                        assert(out@[out@.len() - 1] == j as usize);
                    }
                }
            }
            i += 1;
        }
        out
    }

    /// Picks at random one of the closed routes to `peer` and returns its
    /// place; `None` if and only if no route to `peer` is closed.
    pub fn pick_random_route_to_peer(&self, peer: &PeerId) -> (r: Option<usize>)
        ensures
            match r {
                Some(index) => index < self@.len() && self@[index as int].target == peer@,
                None => forall|i: int| 0 <= i < self@.len() ==> (#[trigger] self@[i]).target != peer@,
            },
    {
        let candidates = self.route_indices_to(peer);
        match choose_index(&candidates) {
            Some(index) => {
                proof {
                    let k = choose|k: int| 0 <= k < candidates@.len() && candidates@[k] == index;
                    assert(candidates@[k] < self@.len());
                }
                Some(index)
            },
            None => {
                assert forall|i: int| 0 <= i < self@.len() implies (#[trigger] self@[i]).target
                    != peer@ by {
                    if self@[i].target == peer@ {
                        assert(candidates@.contains(i as usize));
                    }
                }
                None
            },
        }
    }

    /// Opens the closed route at `index` again and hands it back.
    pub fn enable_route_at(&mut self, index: usize) -> (r: Route)
        requires
            index < old(self)@.len(),
        ensures
            r@ == old(self)@[index as int],
            final(self)@ == old(self)@.remove(index as int),
    {
        let route = self.disabled_routes.remove(index);
        assert(self@ =~= old(self)@.remove(index as int));
        route
    }

    /// Opens again one of the closed routes to `peer`, picked at random, and
    /// hands it back; `None` if and only if no route to `peer` is closed.
    pub fn enable_random_route_to_peer(&mut self, peer: &PeerId) -> (r: Option<Route>)
        ensures
            match r {
                Some(route) => exists|i: int|
                    0 <= i < old(self)@.len() && #[trigger] old(self)@[i] == route@
                        && route@.target == peer@ && final(self)@ == old(self)@.remove(i),
                None => final(self)@ == old(self)@ && forall|i: int|
                    0 <= i < old(self)@.len() ==> (#[trigger] old(self)@[i]).target != peer@,
            },
    {
        match self.pick_random_route_to_peer(peer) {
            Some(index) => Some(self.enable_route_at(index)),
            None => None,
        }
    }

    /// Forgets every closed route that has `peer` at either end.
    pub fn reset_routes_with_peer(&mut self, peer: &PeerId)
        ensures
            final(self)@ == spec_without_peer(old(self)@, peer@),
            forall|i: int|
                0 <= i < final(self)@.len() ==> !spec_mentions(#[trigger] final(self)@[i], peer@),
    {
        let ghost all = self@;
        let mut kept: Vec<Route> = Vec::new();
        let mut i: usize = 0;
        assert(routes_view(kept@) =~= spec_without_peer(all.take(0), peer@));
        while i < self.disabled_routes.len()
            invariant
                i <= self.disabled_routes@.len(),
                all == self@,
                routes_view(kept@) == spec_without_peer(all.take(i as int), peer@),
            decreases self.disabled_routes@.len() - i,
        {
            proof {
                assert(all.take(i + 1).drop_last() =~= all.take(i as int));
                assert(all.take(i + 1).last() == all[i as int]);
            }
            let route = &self.disabled_routes[i];
            if !route.source().same(peer) && !route.target().same(peer) {
                let ghost before = routes_view(kept@);
                kept.push(route.clone());
                assert(routes_view(kept@) =~= before.push(all[i as int]));
            }
            i += 1;
        }
        assert(all.take(i as int) =~= all);
        self.disabled_routes = kept;
        proof {
            lemma_without_peer(all, peer@);
        }
    }

    /// Those of `targets`, in order, to which the transactions of `source`
    /// may be forwarded: those for which no route from `source` is closed.
    pub fn filter_valid_routes(&self, source: &PeerId, targets: Vec<PeerId>) -> (r: Vec<PeerId>)
        ensures
            peer_ids_view(r@) == spec_valid_targets(self@, source@, peer_ids_view(targets@)),
    {
        let ghost all = peer_ids_view(targets@);
        let mut out: Vec<PeerId> = Vec::new();
        let mut i: usize = 0;
        assert(peer_ids_view(out@) =~= spec_valid_targets(self@, source@, all.take(0)));
        while i < targets.len()
            invariant
                i <= targets@.len(),
                all == peer_ids_view(targets@),
                peer_ids_view(out@) == spec_valid_targets(self@, source@, all.take(i as int)),
            decreases targets@.len() - i,
        {
            proof {
                assert(all.take(i + 1).drop_last() =~= all.take(i as int));
                assert(all.take(i + 1).last() == all[i as int]);
            }
            if !self.is_disabled(source, &targets[i]) {
                let ghost before = peer_ids_view(out@);
                out.push(targets[i].clone());
                assert(peer_ids_view(out@) =~= before.push(all[i as int]));
            }
            i += 1;
        }
        assert(all.take(i as int) =~= all);
        out
    }

    /// Whether the route from `source` to `target` is closed.
    pub fn is_disabled(&self, source: &PeerId, target: &PeerId) -> (r: bool)
        ensures
            r == spec_route_disabled(self@, source@, target@),
    {
        let mut i: usize = 0;
        while i < self.disabled_routes.len()
            invariant
                i <= self.disabled_routes@.len(),
                forall|k: int|
                    0 <= k < i ==> #[trigger] self@[k] != (RouteView {
                        source: source@,
                        target: target@,
                    }),
            decreases self.disabled_routes@.len() - i,
        {
            let route = &self.disabled_routes[i];
            if route.source().same(source) && route.target().same(target) {
                assert(self@[i as int] == (RouteView { source: source@, target: target@ }));
                return true;
            }
            i += 1;
        }
        false
    }

    /// A copy of the closed routes, in order.
    pub fn disabled_routes(&self) -> (r: Vec<Route>)
        ensures
            routes_view(r@) == self@,
    {
        let mut out: Vec<Route> = Vec::new();
        let mut i: usize = 0;
        while i < self.disabled_routes.len()
            invariant
                i <= self.disabled_routes@.len(),
                routes_view(out@) == self@.take(i as int),
            decreases self.disabled_routes@.len() - i,
        {
            let ghost before = routes_view(out@);
            out.push(self.disabled_routes[i].clone());
            assert(routes_view(out@) =~= before.push(self@[i as int]));
            assert(routes_view(out@) =~= self@.take(i + 1));
            i += 1;
        }
        assert(self@.take(i as int) =~= self@);
        out
    }
}

/// What an evaluation of the redundancy asks for.
#[derive(Debug, Clone, Copy, PartialEq, Eq, Structural)]
pub enum ControllerAction {
    /// Nothing is sent.
    Idle,
    /// `RESET_ROUTE` is sent: the peer is asked to open a route again.
    ResetRoute,
    /// `HAVE_TX` is sent: the peer is asked to close a route.
    HaveTx,
}

/// Measures, for one peer, the ratio of duplicate to first-time receptions
/// since the last evaluation and holds it against a band around the target.
///
/// Ratios are counted in thousandths. With a target `t` and a tolerance of
/// `p` percent the band reaches from `t * (100 - p) / 100` to
/// `t * (100 + p) / 100`. All comparisons are made on whole numbers: the
/// measured ratio `d / f` is below the band where
/// `d * 100000 < f * t * (100 - p)` and above it where
/// `d * 100000 > f * t * (100 + p)`. With no first-time reception the ratio
/// counts as the upper bound itself, which is neither.
#[derive(Debug, Clone, Copy, PartialEq, Eq, Structural)]
pub struct Controller {
    /// The target ratio, in thousandths.
    pub target_redundancy: u32,
    /// The tolerance, in percent of the target.
    pub redundancy_delta_percent: u8,
    /// First-time receptions since the last evaluation.
    pub first_time_txs_count: usize,
    /// Duplicate receptions since the last evaluation.
    pub duplicate_txs_count: usize,
    /// Whether `HAVE_TX` was sent and redundancy has not dropped since.
    pub is_have_tx_blocked: bool,
}

impl Controller {
    /// Whether the measured ratio is below the band.
    pub open spec fn below_lower(self) -> bool {
        self.first_time_txs_count > 0 && self.duplicate_txs_count * 100000
            < self.first_time_txs_count * self.target_redundancy * (100
            - self.redundancy_delta_percent)
    }

    /// Whether the measured ratio is above the band.
    pub open spec fn above_upper(self) -> bool {
        self.first_time_txs_count > 0 && self.duplicate_txs_count * 100000
            > self.first_time_txs_count * self.target_redundancy * (100
            + self.redundancy_delta_percent)
    }

    /// The controller with both counts at zero.
    pub open spec fn spec_reset(self) -> Controller {
        Controller { first_time_txs_count: 0, duplicate_txs_count: 0, ..self }
    }

    /// One evaluation: the controller afterwards and what is to be sent.
    ///
    /// Without any reception nothing happens. Below the band, a controller
    /// that is blocked unblocks and asks for `RESET_ROUTE`. Above the band, a
    /// controller that is not blocked blocks and asks for `HAVE_TX`. In every
    /// other case nothing is sent. The counts start again from zero.
    pub open spec fn spec_evaluate(self) -> (Controller, ControllerAction) {
        if self.first_time_txs_count + self.duplicate_txs_count == 0 {
            (self, ControllerAction::Idle)
        } else if self.below_lower() && self.is_have_tx_blocked {
            (
                Controller { is_have_tx_blocked: false, ..self.spec_reset() },
                ControllerAction::ResetRoute,
            )
        } else if self.above_upper() && !self.is_have_tx_blocked {
            (Controller { is_have_tx_blocked: true, ..self.spec_reset() }, ControllerAction::HaveTx)
        } else {
            (self.spec_reset(), ControllerAction::Idle)
        }
    }

    /// A measurement inside the band changes nothing but the counts: nothing
    /// is sent and the controller stays blocked or unblocked as it was.
    pub proof fn lemma_inside_band_is_idle(self)
        requires
            !self.below_lower(),
            !self.above_upper(),
        ensures
            self.spec_evaluate().1 == ControllerAction::Idle,
            self.spec_evaluate().0.is_have_tx_blocked == self.is_have_tx_blocked,
    {
    }

    /// Every correction points towards the band: `HAVE_TX`, which lowers the
    /// redundancy, is asked for only above the band, and `RESET_ROUTE`, which
    /// raises it, only below.
    pub proof fn lemma_corrections_point_towards_band(self)
        ensures
            self.spec_evaluate().1 == ControllerAction::HaveTx ==> self.above_upper(),
            self.spec_evaluate().1 == ControllerAction::ResetRoute ==> self.below_lower(),
    {
    }

    /// `HAVE_TX` is asked for only after a duplicate was counted, and never
    /// twice without a `RESET_ROUTE` in between.
    pub proof fn lemma_have_tx_needs_duplicate(self)
        requires
            self.spec_evaluate().1 == ControllerAction::HaveTx,
        ensures
            self.duplicate_txs_count > 0,
            !self.is_have_tx_blocked,
            self.spec_evaluate().0.is_have_tx_blocked,
            self.spec_evaluate().0.spec_evaluate().1 != ControllerAction::HaveTx,
    {
        assert(self.first_time_txs_count * self.target_redundancy * (100
            + self.redundancy_delta_percent) >= 0) by (nonlinear_arith)
            requires
                self.first_time_txs_count >= 0,
                self.target_redundancy >= 0,
                self.redundancy_delta_percent >= 0,
        ;
    }

    /// A controller for the band that `config` describes, with nothing
    /// counted and not blocked.
    pub fn new(config: &Config) -> (r: Self)
        ensures
            r == (Controller {
                target_redundancy: config.target_redundancy,
                redundancy_delta_percent: config.redundancy_delta_percent,
                first_time_txs_count: 0,
                duplicate_txs_count: 0,
                is_have_tx_blocked: false,
            }),
    {
        Controller {
            target_redundancy: config.target_redundancy(),
            redundancy_delta_percent: config.redundancy_delta_percent(),
            first_time_txs_count: 0,
            duplicate_txs_count: 0,
            is_have_tx_blocked: false,
        }
    }

    /// Counts a first-time reception. The count stops at the largest number.
    pub fn incr_first_time_txs_count(&mut self)
        ensures
            *final(self) == (Controller {
                first_time_txs_count: if old(self).first_time_txs_count < usize::MAX {
                    (old(self).first_time_txs_count + 1) as usize
                } else {
                    usize::MAX
                },
                ..*old(self)
            }),
    {
        self.first_time_txs_count = self.first_time_txs_count.saturating_add(1);
    }

    /// Counts a duplicate reception. The count stops at the largest number.
    pub fn incr_duplicate_txs_count(&mut self)
        ensures
            *final(self) == (Controller {
                duplicate_txs_count: if old(self).duplicate_txs_count < usize::MAX {
                    (old(self).duplicate_txs_count + 1) as usize
                } else {
                    usize::MAX
                },
                ..*old(self)
            }),
    {
        self.duplicate_txs_count = self.duplicate_txs_count.saturating_add(1);
    }

    pub fn is_have_tx_blocked(&self) -> (r: bool)
        ensures
            r == self.is_have_tx_blocked,
    {
        self.is_have_tx_blocked
    }

    pub fn block_have_tx(&mut self)
        ensures
            *final(self) == (Controller { is_have_tx_blocked: true, ..*old(self) }),
    {
        self.is_have_tx_blocked = true;
    }

    /// Whether the measured ratio is below the band.
    pub fn is_below_lower_bound(&self) -> (r: bool)
        ensures
            r == self.below_lower(),
    {
        if self.first_time_txs_count == 0 {
            return false;
        }
        if self.redundancy_delta_percent > 100 {
            assert(self.first_time_txs_count * self.target_redundancy * (100
                - self.redundancy_delta_percent) <= 0) by (nonlinear_arith)
                requires
                    self.first_time_txs_count >= 0,
                    self.target_redundancy >= 0,
                    100 - self.redundancy_delta_percent < 0,
            ;
            return false;
        }
        let width: u128 = (100 - self.redundancy_delta_percent) as u128;
        assert(self.first_time_txs_count * self.target_redundancy <= 0xffff_ffff_ffff_ffff
            * 0xffff_ffff) by (nonlinear_arith)
            requires
                0 <= self.first_time_txs_count <= 0xffff_ffff_ffff_ffff,
                0 <= self.target_redundancy <= 0xffff_ffff,
        ;
        let scaled: u128 = self.first_time_txs_count as u128 * self.target_redundancy as u128;
        assert(scaled * width <= 0xffff_ffff_ffff_ffff * 0xffff_ffff * 100) by (nonlinear_arith)
            requires
                0 <= scaled <= 0xffff_ffff_ffff_ffff * 0xffff_ffff,
                0 <= width <= 100,
        ;
        (self.duplicate_txs_count as u128) * 100000 < scaled * width
    }

    /// Whether the measured ratio is above the band.
    pub fn is_above_upper_bound(&self) -> (r: bool)
        ensures
            r == self.above_upper(),
    {
        if self.first_time_txs_count == 0 {
            return false;
        }
        let width: u128 = (100 + self.redundancy_delta_percent as u16) as u128;
        assert(self.first_time_txs_count * self.target_redundancy <= 0xffff_ffff_ffff_ffff
            * 0xffff_ffff) by (nonlinear_arith)
            requires
                0 <= self.first_time_txs_count <= 0xffff_ffff_ffff_ffff,
                0 <= self.target_redundancy <= 0xffff_ffff,
        ;
        let scaled: u128 = self.first_time_txs_count as u128 * self.target_redundancy as u128;
        assert(scaled * width <= 0xffff_ffff_ffff_ffff * 0xffff_ffff * 355) by (nonlinear_arith)
            requires
                0 <= scaled <= 0xffff_ffff_ffff_ffff * 0xffff_ffff,
                0 <= width <= 355,
        ;
        (self.duplicate_txs_count as u128) * 100000 > scaled * width
    }

    /// Evaluates the redundancy measured since the last evaluation, and
    /// starts the counts again.
    pub fn evaluate(&mut self) -> (action: ControllerAction)
        ensures
            (*final(self), action) == old(self).spec_evaluate(),
    {
        if self.first_time_txs_count == 0 && self.duplicate_txs_count == 0 {
            return ControllerAction::Idle;
        }
        let action = if self.is_have_tx_blocked && self.is_below_lower_bound() {
            self.is_have_tx_blocked = false;
            ControllerAction::ResetRoute
        } else if !self.is_have_tx_blocked && self.is_above_upper_bound() {
            self.is_have_tx_blocked = true;
            ControllerAction::HaveTx
        } else {
            ControllerAction::Idle
        };
        self.reset_counters();
        action
    }

    pub fn reset_counters(&mut self)
        ensures
            *final(self) == old(self).spec_reset(),
    {
        self.first_time_txs_count = 0;
        self.duplicate_txs_count = 0;
    }
}

} // verus!
