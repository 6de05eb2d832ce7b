use tower_defense::base::Base;
use tower_defense::button::{
    button_response, on_button_enable, report_on_change, report_on_change_from_enabled, ButtonLook,
    EnableOutcome, PointerInteraction,
};
use tower_defense::lifetime::Lifetime;
use tower_defense::map_validity::{any_set, MapError, MapValidity};
use tower_defense::projectile::projectile_step;
use tower_defense::relics::{Relic, Relics};
use tower_defense::scenes::{AppState, SceneAction, Score};
use tower_defense::selection::Selection;
use tower_defense::shop::Shop;
use tower_defense::targeting::{nearest_target, TargetCandidate};
use tower_defense::wave::{enemy_count, enemy_count_fits, WavePhase, WaveProgress};

#[test]
fn relics_add_respects_slots_and_duplicates() {
    let mut r = Relics::new(2);
    assert!(r.add(Relic { id: 7 }));
    assert!(!r.add(Relic { id: 7 }));
    assert!(r.add(Relic { id: 3 }));
    assert!(!r.add(Relic { id: 9 }));
    assert_eq!(*r.list(), vec![Relic { id: 7 }, Relic { id: 3 }]);
    assert_eq!(r.slot_count(), 2);
}

#[test]
fn relics_remove_keeps_order() {
    let mut r = Relics::new(3);
    r.add(Relic { id: 1 });
    r.add(Relic { id: 2 });
    r.add(Relic { id: 3 });
    assert_eq!(r.remove(Relic { id: 2 }), Some(1));
    assert_eq!(*r.list(), vec![Relic { id: 1 }, Relic { id: 3 }]);
    assert_eq!(r.remove(Relic { id: 2 }), None);
    assert_eq!(r.position(Relic { id: 3 }), Some(1));
}

#[test]
fn relics_add_then_remove_restores() {
    let mut r = Relics::new(4);
    r.add(Relic { id: 10 });
    let before = r.list().clone();
    assert!(r.add(Relic { id: 11 }));
    assert_eq!(r.remove(Relic { id: 11 }), Some(1));
    assert_eq!(*r.list(), before);
}

#[test]
fn selection_click_rules() {
    let mut s = Selection::new();
    assert!(s.on_click(5, true));
    assert_eq!(s.entity, Some(5));
    // clicking it again changes nothing and writes nothing
    assert!(!s.on_click(5, true));
    assert_eq!(s.entity, Some(5));
    assert!(s.on_click(6, true));
    assert_eq!(s.entity, Some(6));
    assert!(s.on_click(99, false));
    assert_eq!(s.entity, None);
    assert!(!s.on_click(99, false));
}

#[test]
fn selection_toggle_rules() {
    let mut s = Selection::new();
    s.on_click_toggle(5, true);
    assert_eq!(s.entity, Some(5));
    s.on_click_toggle(5, true);
    assert_eq!(s.entity, None);
    s.on_click_toggle(5, true);
    s.on_click_toggle(8, true);
    assert_eq!(s.entity, Some(8));
    s.on_click_toggle(1, false);
    assert_eq!(s.entity, None);
}

#[test]
fn wave_enemy_count_formula() {
    assert_eq!(enemy_count(0), 10);
    assert_eq!(enemy_count(1), 11);
    assert_eq!(enemy_count(2), 14);
    assert_eq!(enemy_count(10), 110);
    assert!(enemy_count_fits(65535));
    assert!(!enemy_count_fits(65536));
    assert!(enemy_count_fits(0));
}

#[test]
fn wave_full_cycle() {
    let mut w = WaveProgress::new();
    assert_eq!(w.phase, WavePhase::Finished);
    assert_eq!(w.count, 1);
    w.enemies_checked(false);
    assert_eq!(w.phase, WavePhase::Finished);
    assert_eq!(w.launch(), 11);
    assert_eq!(w.phase, WavePhase::Spawning);
    assert_eq!(w.count, 2);
    w.enemies_checked(false);
    assert_eq!(w.phase, WavePhase::Spawning);
    w.spawner_finished();
    assert_eq!(w.phase, WavePhase::Killing);
    w.enemies_checked(true);
    assert_eq!(w.phase, WavePhase::Killing);
    w.enemies_checked(false);
    assert_eq!(w.phase, WavePhase::Finished);
    assert_eq!(w.launch(), 14);
    assert_eq!(w.count, 3);
}

#[test]
fn scene_transitions() {
    let s = AppState::initial();
    assert_eq!(s, AppState::MainMenu);
    assert_eq!(s.next(SceneAction::StartGame), Some(AppState::InGame));
    assert_eq!(s.next(SceneAction::Restart), None);
    assert_eq!(AppState::InGame.next(SceneAction::BaseDestroyed), Some(AppState::GameOver));
    assert_eq!(AppState::InGame.next(SceneAction::BackToMainMenu), Some(AppState::MainMenu));
    assert_eq!(AppState::GameOver.next(SceneAction::Restart), Some(AppState::InGame));
    assert_eq!(AppState::GameOver.next(SceneAction::BackToMainMenu), Some(AppState::MainMenu));
    assert_eq!(AppState::GameOver.next(SceneAction::BaseDestroyed), None);
    assert_eq!(AppState::MainMenu.next(SceneAction::BaseDestroyed), None);
}

#[test]
fn score_best_is_kept() {
    let mut s = Score::new();
    s.base_destroyed(4);
    assert_eq!(s.current, 3);
    s.record_best();
    assert_eq!(s.best, 3);
    s.base_destroyed(2);
    s.record_best();
    assert_eq!(s.current, 1);
    assert_eq!(s.best, 3);
    s.base_destroyed(1);
    assert_eq!(s.current, 0);
}

#[test]
fn base_life_saturates_at_zero() {
    let mut b = Base::new(2);
    assert!(!b.is_destroyed());
    b.hit();
    assert_eq!(b.life, 1);
    b.hit();
    assert!(b.is_destroyed());
    b.hit();
    assert_eq!(b.life, 0);
}

#[test]
fn button_response_rules() {
    let r = button_response(true, PointerInteraction::Pressed);
    assert_eq!(r.look, ButtonLook::Disabled);
    assert!(!r.activate);
    let r = button_response(false, PointerInteraction::Pressed);
    assert_eq!(r.look, ButtonLook::Pressed);
    assert!(r.activate && r.mark_changed);
    let r = button_response(false, PointerInteraction::Hovered);
    assert_eq!(r.look, ButtonLook::Hovered);
    assert!(!r.activate && r.mark_changed);
    let r = button_response(false, PointerInteraction::Idle);
    assert_eq!(r.look, ButtonLook::Base);
    assert!(!r.activate && !r.mark_changed);
}

#[test]
fn button_disable_counter() {
    let (s, o) = on_button_enable(None, false);
    assert_eq!((s, o), (Some(1), EnableOutcome::Disabled));
    let (s, o) = on_button_enable(s, false);
    assert_eq!((s, o), (Some(2), EnableOutcome::StillDisabled));
    let (s, o) = on_button_enable(s, true);
    assert_eq!((s, o), (Some(1), EnableOutcome::StillDisabled));
    let (s, o) = on_button_enable(s, true);
    assert_eq!((s, o), (None, EnableOutcome::Enabled));
    let (s, o) = on_button_enable(s, true);
    assert_eq!((s, o), (None, EnableOutcome::AlreadyEnabled));
}

#[test]
fn reports_only_on_change() {
    assert_eq!(report_on_change(None, true), (Some(true), Some(true)));
    assert_eq!(report_on_change(Some(true), true), (Some(true), None));
    assert_eq!(report_on_change(Some(true), false), (Some(false), Some(false)));
    assert_eq!(report_on_change_from_enabled(None, true), (true, None));
    assert_eq!(report_on_change_from_enabled(None, false), (false, Some(false)));
    assert_eq!(report_on_change_from_enabled(Some(false), false), (false, None));
    assert_eq!(report_on_change_from_enabled(Some(false), true), (true, Some(true)));
}

#[test]
fn nearest_target_first_of_ties() {
    let c = vec![
        TargetCandidate { entity: 1, in_range: false, distance: 1 },
        TargetCandidate { entity: 2, in_range: true, distance: 50 },
        TargetCandidate { entity: 3, in_range: true, distance: 20 },
        TargetCandidate { entity: 4, in_range: true, distance: 20 },
        TargetCandidate { entity: 5, in_range: true, distance: 70 },
    ];
    assert_eq!(nearest_target(&c, None), Some(3));
    assert_eq!(nearest_target(&c, Some(3)), Some(4));
    assert_eq!(nearest_target(&c[..1].to_vec(), None), None);
    assert_eq!(nearest_target(&Vec::new(), None), None);
}

#[test]
fn projectile_step_rules() {
    let s = projectile_step(true, true, false);
    assert!(s.hit && s.despawn && s.follow_target);
    let s = projectile_step(true, false, true);
    assert!(!s.hit && !s.despawn && s.follow_target);
    let s = projectile_step(false, true, true);
    assert!(!s.hit && s.despawn && !s.follow_target);
    let s = projectile_step(false, false, false);
    assert!(!s.hit && !s.despawn && !s.follow_target);
}

#[test]
fn lifetime_expires_exactly_at_zero() {
    let mut l = Lifetime::new(1_000);
    assert!(!l.tick(400));
    assert_eq!(l.time_left_nanos, 600);
    assert!(!l.tick(0));
    assert!(l.tick(600));
}

#[test]
fn map_validity_order_of_checks() {
    let mut v = MapValidity::new();
    v.check(true, &vec![false, true], true, &vec![true, false], false);
    assert_eq!(v.error, Some(MapError::BuildingOverlapsBase));
    v.check(true, &vec![false, false], true, &vec![true, false], false);
    assert_eq!(v.error, Some(MapError::BuildingOverlapsSpawnerZone));
    v.check(true, &vec![false], true, &vec![false], false);
    assert_eq!(v.error, Some(MapError::PathBlocked));
    // base missing: left as it was
    v.check(false, &vec![], true, &vec![], true);
    assert_eq!(v.error, Some(MapError::PathBlocked));
    // spawner missing: left as it was
    v.check(true, &vec![], false, &vec![], true);
    assert_eq!(v.error, Some(MapError::PathBlocked));
    v.check(true, &vec![false, false], true, &vec![], true);
    assert_eq!(v.error, None);
    assert!(any_set(&vec![false, true]));
    assert!(!any_set(&vec![]));
}

#[test]
fn map_error_messages() {
    assert_eq!(MapError::BuildingOverlapsBase.message(), "Building overlap with base.");
    assert_eq!(MapError::BuildingOverlapsSpawnerZone.message(), "Building overlap with spawner zone.");
    assert_eq!(MapError::PathBlocked.message(), "The path has been blocked.");
}

#[test]
fn shop_shows_valid_positions_in_order() {
    let mut shop = Shop::new(vec!["tower", "obstacle"]);
    assert_eq!(shop.current_items, vec![0, 1]);
    assert_eq!(shop.shown_items(), vec![0, 1]);
    shop.current_items = vec![1, 5, 0, 1];
    assert_eq!(shop.shown_items(), vec![1, 0, 1]);
}
