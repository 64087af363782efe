use libp2p_dog::config::{Config, ConfigBuilder};
use libp2p_dog::dog::{Controller, ControllerAction, Route, Router};
use libp2p_dog::peer::PeerId;
use libp2p_dog::time_cache::DuplicateCache;
use libp2p_dog::types::TransactionId;

fn peer(n: u8) -> PeerId {
    PeerId::from_bytes(&[0, 4, n, n, n, n]).unwrap()
}

fn pairs(routes: &[Route]) -> Vec<(u8, u8)> {
    routes.iter().map(|r| (r.source().to_bytes()[2], r.target().to_bytes()[2])).collect()
}

fn ids(peers: &[PeerId]) -> Vec<u8> {
    peers.iter().map(|p| p.to_bytes()[2]).collect()
}

#[test]
fn router_keeps_routes_in_order_and_twice() {
    let mut router = Router::new();
    assert!(router.disabled_routes().is_empty());
    router.disable_route(peer(1), peer(2));
    router.disable_route(peer(3), peer(2));
    router.disable_route(peer(1), peer(2));
    assert_eq!(pairs(&router.disabled_routes()), vec![(1, 2), (3, 2), (1, 2)]);
    assert!(router.is_disabled(&peer(1), &peer(2)));
    assert!(!router.is_disabled(&peer(2), &peer(1)));
}

#[test]
fn router_filters_targets_by_source() {
    let mut router = Router::new();
    router.disable_route(peer(1), peer(2));
    router.disable_route(peer(1), peer(4));
    router.disable_route(peer(9), peer(3));
    let targets = vec![peer(2), peer(3), peer(4), peer(5)];
    assert_eq!(ids(&router.filter_valid_routes(&peer(1), targets.clone())), vec![3, 5]);
    assert_eq!(ids(&router.filter_valid_routes(&peer(9), targets.clone())), vec![2, 4, 5]);
    assert_eq!(ids(&router.filter_valid_routes(&peer(7), targets)), vec![2, 3, 4, 5]);
    assert!(router.filter_valid_routes(&peer(1), vec![]).is_empty());
}

#[test]
fn reset_drops_every_route_that_mentions_the_peer() {
    let mut router = Router::new();
    router.disable_route(peer(1), peer(2));
    router.disable_route(peer(2), peer(3));
    router.disable_route(peer(3), peer(4));
    router.disable_route(peer(4), peer(2));
    router.disable_route(peer(5), peer(6));
    router.reset_routes_with_peer(&peer(2));
    assert_eq!(pairs(&router.disabled_routes()), vec![(3, 4), (5, 6)]);
    for route in router.disabled_routes() {
        assert!(!route.source().same(&peer(2)) && !route.target().same(&peer(2)));
    }
    router.reset_routes_with_peer(&peer(9));
    assert_eq!(pairs(&router.disabled_routes()), vec![(3, 4), (5, 6)]);
}

#[test]
fn enable_random_route_opens_one_route_to_the_peer() {
    for _ in 0..50 {
        let mut router = Router::new();
        router.disable_route(peer(1), peer(2));
        router.disable_route(peer(3), peer(4));
        router.disable_route(peer(5), peer(2));
        let indices = router.route_indices_to(&peer(2));
        assert_eq!(indices, vec![0, 2]);
        let picked = router.pick_random_route_to_peer(&peer(2)).unwrap();
        assert!(picked == 0 || picked == 2);
        let route = router.enable_random_route_to_peer(&peer(2)).unwrap();
        assert!(route.target().same(&peer(2)));
        let left = pairs(&router.disabled_routes());
        let opened = route.source().to_bytes()[2];
        assert!(opened == 1 || opened == 5);
        assert_eq!(left, if opened == 1 { vec![(3, 4), (5, 2)] } else { vec![(1, 2), (3, 4)] });
        assert!(router.enable_random_route_to_peer(&peer(9)).is_none());
        assert_eq!(pairs(&router.disabled_routes()), left);
    }
}

#[test]
fn enable_random_route_reaches_every_candidate() {
    let mut seen = [false; 2];
    for _ in 0..200 {
        let mut router = Router::new();
        router.disable_route(peer(1), peer(2));
        router.disable_route(peer(5), peer(2));
        let route = router.enable_random_route_to_peer(&peer(2)).unwrap();
        seen[if route.source().same(&peer(1)) { 0 } else { 1 }] = true;
    }
    assert_eq!(seen, [true, true]);
}

#[test]
fn enable_route_at_removes_that_route() {
    let mut router = Router::new();
    router.disable_route(peer(1), peer(2));
    router.disable_route(peer(3), peer(4));
    let route = router.enable_route_at(0);
    assert_eq!(pairs(&[route]), vec![(1, 2)]);
    assert_eq!(pairs(&router.disabled_routes()), vec![(3, 4)]);
}

fn controller(target: u32, delta: u8, first: usize, duplicates: usize, blocked: bool) -> Controller {
    Controller {
        target_redundancy: target,
        redundancy_delta_percent: delta,
        first_time_txs_count: first,
        duplicate_txs_count: duplicates,
        is_have_tx_blocked: blocked,
    }
}

#[test]
fn controller_starts_from_the_configuration() {
    let config = ConfigBuilder::default().target_redundancy(2500).redundancy_delta_percent(20).build();
    assert_eq!(Controller::new(&config), controller(2500, 20, 0, 0, false));
    assert_eq!(Controller::new(&Config::default()), controller(1000, 10, 0, 0, false));
}

#[test]
fn controller_counts_and_saturates() {
    let mut c = controller(1000, 10, 0, usize::MAX - 1, false);
    c.incr_first_time_txs_count();
    c.incr_duplicate_txs_count();
    assert_eq!((c.first_time_txs_count, c.duplicate_txs_count), (1, usize::MAX));
    c.incr_duplicate_txs_count();
    assert_eq!(c.duplicate_txs_count, usize::MAX);
    c.reset_counters();
    assert_eq!((c.first_time_txs_count, c.duplicate_txs_count), (0, 0));
    assert!(!c.is_have_tx_blocked());
    c.block_have_tx();
    assert!(c.is_have_tx_blocked());
}

#[test]
fn controller_band_is_exact() {
    // target 1.0, tolerance 10 %: the band reaches from 0.9 to 1.1
    assert!(controller(1000, 10, 100, 89, false).is_below_lower_bound());
    assert!(!controller(1000, 10, 100, 90, false).is_below_lower_bound());
    assert!(!controller(1000, 10, 100, 110, false).is_above_upper_bound());
    assert!(controller(1000, 10, 100, 111, false).is_above_upper_bound());
    // no first-time reception: the ratio counts as the upper bound
    assert!(!controller(1000, 10, 0, 5, false).is_below_lower_bound());
    assert!(!controller(1000, 10, 0, 5, false).is_above_upper_bound());
    // target 0: any duplicate is too many, nothing is too few
    assert!(controller(0, 0, 3, 1, false).is_above_upper_bound());
    assert!(!controller(0, 0, 3, 0, false).is_above_upper_bound());
    assert!(!controller(0, 0, 3, 0, false).is_below_lower_bound());
    // a tolerance over 100 %: nothing is below the band
    assert!(!controller(1000, 150, 10, 0, false).is_below_lower_bound());
    // the largest numbers do not overflow
    assert!(controller(u32::MAX, 255, usize::MAX, 0, false).is_below_lower_bound() == false);
    assert!(!controller(u32::MAX, 255, usize::MAX, usize::MAX, false).is_above_upper_bound());
    assert!(controller(u32::MAX, 0, usize::MAX, 0, false).is_below_lower_bound());
}

#[test]
fn controller_evaluate_follows_the_rules() {
    // nothing received: nothing happens
    let mut c = controller(1000, 10, 0, 0, true);
    assert_eq!(c.evaluate(), ControllerAction::Idle);
    assert_eq!(c, controller(1000, 10, 0, 0, true));
    // below the band and blocked: unblock, RESET_ROUTE
    let mut c = controller(1000, 10, 10, 1, true);
    assert_eq!(c.evaluate(), ControllerAction::ResetRoute);
    assert_eq!(c, controller(1000, 10, 0, 0, false));
    // below the band and not blocked: nothing but the reset of the counts
    let mut c = controller(1000, 10, 10, 1, false);
    assert_eq!(c.evaluate(), ControllerAction::Idle);
    assert_eq!(c, controller(1000, 10, 0, 0, false));
    // above the band and not blocked: block, HAVE_TX
    let mut c = controller(1000, 10, 10, 20, false);
    assert_eq!(c.evaluate(), ControllerAction::HaveTx);
    assert_eq!(c, controller(1000, 10, 0, 0, true));
    // above the band and blocked: no second HAVE_TX
    let mut c = controller(1000, 10, 10, 20, true);
    assert_eq!(c.evaluate(), ControllerAction::Idle);
    assert_eq!(c, controller(1000, 10, 0, 0, true));
    // inside the band: nothing
    let mut c = controller(1000, 10, 10, 10, true);
    assert_eq!(c.evaluate(), ControllerAction::Idle);
    assert_eq!(c, controller(1000, 10, 0, 0, true));
    // only duplicates: the ratio counts as the upper bound
    let mut c = controller(1000, 10, 0, 7, false);
    assert_eq!(c.evaluate(), ControllerAction::Idle);
    assert_eq!(c, controller(1000, 10, 0, 0, false));
}

fn id(n: u8) -> TransactionId {
    TransactionId::new(&[n])
}

#[test]
fn cache_remembers_for_the_ttl() {
    let mut cache = DuplicateCache::new(60);
    assert!(cache.insert_at(id(1), peer(1), 100));
    assert!(!cache.insert_at(id(1), peer(2), 159));
    assert!(cache.contains(&id(1)));
    assert!(cache.origin_of(&id(1)).unwrap().same(&peer(1)));
    assert_eq!(cache.len(), 1);
    // at 160 the entry has expired and the identifier is new again
    assert!(cache.insert_at(id(1), peer(3), 160));
    assert!(cache.origin_of(&id(1)).unwrap().same(&peer(3)));
    assert_eq!(cache.len(), 1);
}

#[test]
fn cache_expires_from_the_front_only() {
    let mut cache = DuplicateCache::new(10);
    assert!(cache.insert_at(id(1), peer(1), 0));
    assert!(cache.insert_at(id(2), peer(1), 5));
    assert!(cache.insert_at(id(3), peer(1), 8));
    cache.remove_expired_values(9);
    assert_eq!(cache.len(), 3);
    cache.remove_expired_values(10);
    assert!(!cache.contains(&id(1)));
    assert!(cache.contains(&id(2)) && cache.contains(&id(3)));
    cache.remove_expired_values(u64::MAX);
    assert_eq!(cache.len(), 0);
    assert!(cache.origin_of(&id(2)).is_none());
}

#[test]
fn cache_with_its_own_clock() {
    let mut cache = DuplicateCache::new(60_000_000_000);
    assert!(cache.insert(id(1), peer(1)));
    assert!(!cache.insert(id(1), peer(1)));
    assert!(cache.insert(id(2), peer(1)));
    assert!(cache.contains(&id(1)));
    assert!(!cache.contains(&id(3)));
    // no overflow at the end of time
    let mut cache = DuplicateCache::new(u64::MAX);
    assert!(cache.insert_at(id(1), peer(1), u64::MAX));
    assert!(!cache.insert_at(id(1), peer(1), u64::MAX));
}
