use punchy::animation::{Animation, Clip, Facing, NamedClip};
use punchy::assets::relative_asset_path;
use punchy::attack::{
    activates_hitbox, apply_damage, attack_and_hurtbox, deactivates_hitbox, AttackFrames, Breakable, Damageable, Health,
};
use punchy::audio::{menu_click_sound, AnimationAudioPlayback, AudioStep};
use punchy::collision::{attack_groups, body_groups, explosion_groups, fighter_body_layer, BodyLayers, CollisionGroups, Team};
use punchy::enemy_ai::emit_enemy_intent;
use punchy::fighter_state::{
    collect_attack_knockback, collect_fighter_elimination, collect_player_actions, dying_action, jump_phase,
    knocked_back_animation, sort_by_priority, transition_from_state, turn_toward, DyingAction, FighterState, Heading,
    StateExit, StateTransition, StateTransitionIntents, Vertical,
};
use punchy::item::{collect_drops, explodable_action, grab_items, refill_health, spawn_plan, throw_action, ExplodableAction, ItemClass, SpawnPlan, ThrowAction};
use punchy::loading::{should_skip_run, AssetEventKind};
use punchy::scripting::{queue_script_events, script_source, should_load_script, split_loadable, LogLevel, ScriptEvent, ScriptToLoad};
use punchy::settings::{bind_control, PlayerControlMethods, PlayerControls, VirtualDPad};
use punchy::state::{return_to_idle, State};
use punchy::ui::{
    control_adjacencies, menu_keys, settings_click, toggled_window_mode, Adjacency, MenuKey, MenuPage, SettingsClick, SettingsTab, Widget,
    WindowMode,
};

fn clip(start: usize, end: usize, repeat: bool) -> Clip {
    Clip { frames: start..end, repeat }
}

fn fighter_animation() -> Animation {
    Animation::new(vec![
        NamedClip { name: "idle".to_string(), clip: clip(0, 3, true) },
        NamedClip { name: "attacking".to_string(), clip: clip(10, 12, false) },
        NamedClip { name: "dying".to_string(), clip: clip(20, 21, false) },
    ])
}

#[test]
fn state_parses_its_names() {
    assert_eq!(State::try_from("idle".to_string()), Ok(State::Idle));
    assert_eq!(State::try_from("knocked_right".to_string()), Ok(State::KnockedRight));
    assert_eq!(State::try_from("dying".to_string()), Ok(State::Dying));
    assert_eq!(State::try_from("Idle".to_string()), Err("invalid value"));
    assert_eq!(State::try_from(String::new()), Err("invalid value"));
}

#[test]
fn state_set_and_default() {
    let mut s = State::default();
    assert_eq!(s, State::Idle);
    s.set(State::Attacking);
    assert_eq!(s, State::Attacking);
    assert!(!s.can_move());
    assert!(State::Running.can_move());
    assert_eq!(State::from_movement(true), State::Running);
    assert_eq!(State::from_movement(false), State::Idle);
}

#[test]
fn return_to_idle_after_one_shot_clip_but_not_when_dying() {
    let mut a = fighter_animation();
    a.play("attacking");
    a.played_once = true;
    let mut s = State::Attacking;
    return_to_idle(&mut s, &a);
    assert_eq!(s, State::Idle);
    let mut d = State::Dying;
    return_to_idle(&mut d, &a);
    assert_eq!(d, State::Dying);
    a.play("idle");
    a.played_once = true;
    let mut r = State::Running;
    return_to_idle(&mut r, &a);
    assert_eq!(r, State::Running);
}

fn t(name: u32, priority: i32, additive: bool) -> StateTransition<u32> {
    StateTransition::new(name, priority, additive)
}

fn names(v: &[StateTransition<u32>]) -> Vec<u32> {
    v.iter().map(|t| t.data).collect()
}

#[test]
fn sort_is_stable_and_descending() {
    let sorted = sort_by_priority(vec![t(1, 10, false), t(2, 30, false), t(3, 10, true), t(4, 30, true), t(5, 0, false)]);
    assert_eq!(names(&sorted), vec![2, 4, 1, 3, 5]);
}

#[test]
fn higher_priority_transitions_apply_until_a_replacing_one() {
    let mut q = StateTransitionIntents::new();
    q.push_back(t(1, 15, true));
    q.push_back(t(2, 10, false));
    q.push_back(t(3, 30, false));
    q.push_back(t(4, 15, true));
    let (applied, replaced) = q.transition_to_higher_priority_states(10);
    assert_eq!(names(&applied), vec![3]);
    assert!(replaced);
    assert_eq!(q.len(), 0);
}

#[test]
fn additive_transitions_keep_the_current_state() {
    let mut q = StateTransitionIntents::new();
    q.push_back(t(1, 15, true));
    q.push_back(t(2, 10, false));
    q.push_back(t(3, 15, true));
    let (applied, replaced) = q.transition_to_higher_priority_states(10);
    assert_eq!(names(&applied), vec![1, 3]);
    assert!(!replaced);
}

#[test]
fn max_priority_goes_through_first() {
    let mut q = StateTransitionIntents::new();
    q.push_back(t(1, 1000, false));
    q.push_back(t(2, i32::MAX, false));
    let (applied, replaced) = q.transition_to_higher_priority_states(1000);
    assert_eq!(names(&applied), vec![2]);
    assert!(replaced);
}

#[test]
fn nothing_above_current_nothing_applied() {
    let mut q = StateTransitionIntents::new();
    q.push_back(t(1, 5, false));
    q.push_back(t(2, 10, false));
    let (applied, replaced) = q.transition_to_higher_priority_states(10);
    assert!(applied.is_empty());
    assert!(!replaced);
    assert_eq!(q.len(), 0);
}

#[test]
fn finished_state_returns_to_idle_unless_replaced() {
    let mut q: StateTransitionIntents<u32> = StateTransitionIntents::new();
    let (_, exit) = transition_from_state(&mut q, 30, true);
    assert_eq!(exit, StateExit::ToIdle);
    let (_, exit) = transition_from_state(&mut q, 30, false);
    assert_eq!(exit, StateExit::Stays);
    q.push_back(t(9, 40, false));
    let (applied, exit) = transition_from_state(&mut q, 30, true);
    assert_eq!(names(&applied), vec![9]);
    assert_eq!(exit, StateExit::Replaced);
}

#[test]
fn player_input_raises_intents_in_order() {
    let mut q = StateTransitionIntents::new();
    collect_player_actions(&mut q, true, true, true, false, false);
    let (applied, replaced) = q.transition_to_higher_priority_states(FighterState::Idling.priority());
    let states: Vec<FighterState> = applied.iter().map(|t| t.data).collect();
    assert_eq!(states, vec![FighterState::Flopping]);
    assert!(replaced);

    let mut q = StateTransitionIntents::new();
    collect_player_actions(&mut q, true, true, false, true, true);
    let (applied, _) = q.transition_to_higher_priority_states(0);
    let states: Vec<FighterState> = applied.iter().map(|t| t.data).collect();
    assert_eq!(states, vec![FighterState::Throwing]);
}

#[test]
fn eliminations_and_knockbacks() {
    let mut q = StateTransitionIntents::new();
    collect_fighter_elimination(&mut q, 1);
    assert_eq!(q.len(), 0);
    collect_fighter_elimination(&mut q, 0);
    collect_attack_knockback(&mut q);
    let (applied, _) = q.transition_to_higher_priority_states(FighterState::Punching.priority());
    assert_eq!(applied[0].data, FighterState::Dying);
    assert_eq!(applied[0].priority, 1000);
    assert_eq!(applied.len(), 1);
}

#[test]
fn jump_phases() {
    let f = AttackFrames { startup: 2, active: 5, recovery: 7 };
    assert_eq!(jump_phase(0, f), Vertical::Rise { over_frames: 2 });
    assert_eq!(jump_phase(3, f), Vertical::Fall { over_frames: 3 });
    assert_eq!(jump_phase(6, f), Vertical::Level);
    assert!(f.hitbox_active(2) && f.hitbox_active(5) && !f.hitbox_active(6));
    assert!(f.hitbox_expired(7) && !f.hitbox_expired(6));
}

#[test]
fn knock_back_clip_depends_on_facing() {
    assert_eq!(knocked_back_animation(Facing::Right, true), "knocked_left");
    assert_eq!(knocked_back_animation(Facing::Right, false), "knocked_right");
    assert_eq!(knocked_back_animation(Facing::Left, true), "knocked_right");
    assert_eq!(knocked_back_animation(Facing::Left, false), "knocked_left");
}

#[test]
fn turning_follows_movement() {
    let mut f = Facing::Right;
    turn_toward(&mut f, Heading::Left);
    assert_eq!(f, Facing::Left);
    turn_toward(&mut f, Heading::Still);
    assert_eq!(f, Facing::Left);
    turn_toward(&mut f, Heading::Right);
    assert!(!f.is_left());
}

#[test]
fn dying_plays_then_despawns() {
    let mut a = fighter_animation();
    a.play("idle");
    assert_eq!(dying_action(&a), DyingAction::StartDying);
    a.play("dying");
    assert_eq!(dying_action(&a), DyingAction::Wait);
    a.played_once = true;
    assert_eq!(dying_action(&a), DyingAction::Despawn);
}

#[test]
fn animation_plays_a_one_shot_clip_through() {
    let mut a = fighter_animation();
    a.play("attacking");
    assert!(a.is_playing("attacking"));
    assert_eq!(a.get_current_index(), Some(10));
    assert!(!a.is_repeating());
    a.advance_frame();
    assert_eq!(a.get_current_index(), Some(11));
    a.advance_frame();
    assert_eq!(a.get_current_index(), Some(12));
    assert!(a.is_last_frame());
    assert!(!a.is_finished());
    a.advance_frame();
    assert!(a.is_finished());
    assert_eq!(a.current_frame, 2);
    assert!(!a.should_cycle());
}

#[test]
fn repeating_clip_starts_over() {
    let mut a = fighter_animation();
    a.play("idle");
    for _ in 0..4 {
        a.advance_frame();
    }
    assert_eq!(a.current_frame, 0);
    assert!(a.is_finished());
    assert!(a.should_cycle());
    assert_eq!(a.get_current_indices(), Some(&(0..3)));
}

#[test]
fn unknown_clip_has_no_index() {
    let mut a = fighter_animation();
    a.play("flying");
    assert_eq!(a.get_current_index(), None);
    assert!(!a.is_last_frame());
    assert!(!a.is_repeating());
}

#[test]
fn breakable_breaks_after_tolerated_hits() {
    let mut b = Breakable::new(2, false);
    assert!(!b.hit());
    assert!(!b.hit());
    assert!(b.hit());
    assert_eq!(b.hit_count, 2);
    let mut z = Breakable::new(0, true);
    assert!(z.hit());
}

#[test]
fn damage_spares_the_invincible() {
    let mut h = Health(50);
    assert!(apply_damage(&mut h, Damageable::default(), 20));
    assert_eq!(h, Health(30));
    assert!(!apply_damage(&mut h, Damageable(false), 20));
    assert_eq!(h, Health(30));
    assert_eq!(attack_and_hurtbox(1, 2, false, true, true, false), Some((2, 1)));
    assert_eq!(attack_and_hurtbox(1, 2, true, false, false, true), Some((1, 2)));
    assert_eq!(attack_and_hurtbox(1, 2, false, false, false, false), None);
}

#[test]
fn collision_groups() {
    assert_eq!(attack_groups(Team::Players), CollisionGroups::new(4, 1 | 16));
    assert_eq!(attack_groups(Team::Enemies), CollisionGroups::new(8, 2));
    assert_eq!(body_groups(BodyLayers::PLAYER), CollisionGroups::new(2, u32::MAX));
    assert_eq!(fighter_body_layer(false, true), BodyLayers::ENEMY);
    assert_eq!(explosion_groups(true).filters, 2 | 1 | 16);
    assert_eq!(explosion_groups(false), CollisionGroups::new(8, 2));
}

#[test]
fn health_refill_is_clamped() {
    assert_eq!(refill_health(50, 30, 100), 80);
    assert_eq!(refill_health(90, 30, 100), 100);
    assert_eq!(refill_health(-10, 5, 100), 0);
}

#[test]
fn grabbing_gives_each_item_to_one_fighter() {
    let in_range = vec![vec![true, true], vec![true, true], vec![false, true]];
    let hands_free = vec![true, true, true];
    assert_eq!(grab_items(&in_range, &hands_free, 2), vec![Some(0), Some(1), None]);
    let hands_free = vec![false, true, true];
    assert_eq!(grab_items(&in_range, &hands_free, 2), vec![None, Some(0), Some(1)]);
    // Two fighters in reach of one item: only the first gets it, health item or not.
    assert_eq!(grab_items(&vec![vec![true], vec![true]], &vec![true, true], 1), vec![Some(0), None]);
    assert_eq!(grab_items(&vec![], &vec![], 3), vec![]);
}

#[test]
fn item_actions() {
    assert_eq!(throw_action(ItemClass::Throwable), ThrowAction::Projectile);
    assert_eq!(throw_action(ItemClass::BreakableBox { hits: 2 }), ThrowAction::ProjectileWithDrop);
    assert_eq!(spawn_plan(ItemClass::BreakableBox { hits: 3 }), SpawnPlan::Breakable { hits: 3 });
    assert_eq!(spawn_plan(ItemClass::Script), SpawnPlan::ActivateScript);
    assert_eq!(spawn_plan(ItemClass::Health { health: 5 }), SpawnPlan::Plain);
    assert_eq!(explodable_action(false, true, false), ExplodableAction::StartFusing);
    assert_eq!(explodable_action(true, true, true), ExplodableAction::Explode);
    assert_eq!(explodable_action(true, false, false), ExplodableAction::Wait);
}

#[test]
fn drops_keep_event_order() {
    let drops = collect_drops(vec![(Some('a'), Some(1)), (None, None)], vec![(None, Some(7)), (Some('b'), Some(2))]);
    assert_eq!(drops, vec![('a', 1), ('b', 2)]);
}

#[test]
fn enemy_decisions() {
    let d = emit_enemy_intent(true, false, "punch", true, false, false);
    assert_eq!(d.facing, Facing::Right);
    assert_eq!(d.intent, Some(FighterState::Punching));
    assert!(d.remove_target);
    let d = emit_enemy_intent(true, false, "projectile", true, false, false);
    assert_eq!(d.facing, Facing::Left);
    assert_eq!(d.intent, Some(FighterState::ProjectileAttacking));
    let d = emit_enemy_intent(true, true, "punch", false, true, false);
    assert_eq!(d.intent, Some(FighterState::BossBombThrow));
    let d = emit_enemy_intent(false, false, "punch", true, true, true);
    assert_eq!(d.facing, Facing::Left);
    assert_eq!(d.intent, Some(FighterState::Moving));
    assert!(!d.remove_target);
    let d = emit_enemy_intent(true, false, "kick", false, false, false);
    assert_eq!(d.intent, None);
}

#[test]
fn relative_asset_paths() {
    assert_eq!(relative_asset_path("levels/level1.level.yaml", "fighter.yaml"), "levels/fighter.yaml");
    assert_eq!(relative_asset_path("default.game.yaml", "menu.png"), "menu.png");
    assert_eq!(relative_asset_path("a/b/c.yaml", "/fighters/x.yaml"), "fighters/x.yaml");
    assert_eq!(relative_asset_path("a/b/c.yaml", "../d.png"), "a/b/../d.png");
    assert_eq!(relative_asset_path("fighters/a/a.fighter.yaml", "a.png"), "fighters/a/a.png");
    assert_eq!(relative_asset_path("a/", "x"), "x");
    assert_eq!(relative_asset_path("x.yaml", "//x"), "x");
}

/// The resolution the game's asset loaders use, by `std::path` components.
fn path_resolution(asset_path: &str, relative_path: &str) -> String {
    let resolved = if !relative_path.starts_with('/') {
        let base = std::path::Path::new(asset_path).parent().unwrap_or_else(|| std::path::Path::new(""));
        base.join(relative_path)
    } else {
        std::path::Path::new(relative_path).strip_prefix("/").unwrap().to_owned()
    };
    resolved.to_str().unwrap().to_string()
}

#[test]
fn relative_asset_paths_follow_path_components() {
    let assets = [
        "", "/", ".", "./", "..", "a", "a/", "a//", "a/.", "a/./", "/a", "/a/", "//a", "./a", "./a/b",
        "a/b", "a//b", "a/./b", "a/b/.", "a/b/./", "a/../b", "/a/b/c.yaml", ".a/b", "a/.b", "./.", "/.", "/./a",
        "a//b//c", "levels/level1.level.yaml",
    ];
    let relatives = [
        "", "x", "x/", "./x", "../x", "/", "//", "/x", "//x", "/./x", "/x/", "/x/.", "/x//y/.", "/.", "x//y", ".",
    ];
    for a in assets.iter() {
        for r in relatives.iter() {
            assert_eq!(relative_asset_path(a, r), path_resolution(a, r), "asset {:?}, relative {:?}", a, r);
        }
    }
}

#[test]
fn hot_reload_skips_its_own_modification() {
    let mut skip = false;
    assert!(!should_skip_run(&mut skip, false, &vec![]));
    assert!(should_skip_run(&mut skip, true, &vec![]));
    assert!(!should_skip_run(&mut skip, true, &vec![AssetEventKind::Modified]));
    skip = true;
    assert!(should_skip_run(&mut skip, true, &vec![AssetEventKind::Created, AssetEventKind::Modified]));
    assert!(!skip);
    skip = true;
    assert!(!should_skip_run(&mut skip, true, &vec![AssetEventKind::Modified, AssetEventKind::Modified]));
    skip = true;
    assert!(should_skip_run(&mut skip, true, &vec![AssetEventKind::Removed]));
    assert!(skip);
}

#[test]
fn audio_effects_play_once_per_frame() {
    let mut a = fighter_animation();
    a.play("attacking");
    let mut effects = std::collections::HashMap::new();
    effects.insert(11usize, "whoosh");
    effects.insert(10usize, "swing");
    let mut p = AnimationAudioPlayback::new("attacking".to_string(), effects);
    assert_eq!(p.step(&a), AudioStep::Play(10));
    assert_eq!(p.effects[&10], "swing");
    assert_eq!(p.step(&a), AudioStep::Nothing);
    a.advance_frame();
    assert_eq!(p.step(&a), AudioStep::Play(11));
    a.advance_frame();
    assert_eq!(p.step(&a), AudioStep::Nothing);
    a.play("idle");
    assert_eq!(p.step(&a), AudioStep::Remove);
}

#[test]
fn menu_click_sounds() {
    let play = 0;
    let buttons = vec![1, 2, 3];
    assert_eq!(menu_click_sound(Some("Start Game"), &play, &buttons), Some(&0));
    let s = menu_click_sound(Some("Settings"), &play, &buttons).unwrap();
    assert!(buttons.contains(s));
    assert_eq!(menu_click_sound(None, &play, &buttons), None);
}

#[test]
fn menu_state() {
    assert_eq!(MenuPage::default(), MenuPage::Main);
    assert!(MenuPage::Settings { tab: Default::default() }.back_leaves());
    assert!(!MenuPage::Main.back_leaves());
    assert_eq!(toggled_window_mode(WindowMode::BorderlessFullscreen), WindowMode::Windowed);
    assert_eq!(toggled_window_mode(WindowMode::Windowed), WindowMode::BorderlessFullscreen);
    assert_eq!(menu_keys(true, false, true), vec![MenuKey::Enter, MenuKey::ShiftTab]);
}

#[test]
fn controls_table_links() {
    let adj = control_adjacencies(3, 2);
    let up = |a: Widget, b: Widget| Adjacency { upper: a, lower: b };
    assert_eq!(
        adj,
        vec![
            up(Widget::Tab(0), Widget::Input(2)),
            up(Widget::Tab(1), Widget::Input(2)),
            up(Widget::Tab(0), Widget::Input(1)),
            up(Widget::Tab(1), Widget::Input(1)),
            up(Widget::Tab(0), Widget::Input(0)),
            up(Widget::Tab(1), Widget::Input(0)),
            up(Widget::Input(0), Widget::Input(3)),
            up(Widget::Input(1), Widget::Input(4)),
            up(Widget::Input(2), Widget::Input(5)),
            up(Widget::Input(6), Widget::Save),
            up(Widget::Input(3), Widget::Input(6)),
            up(Widget::Input(7), Widget::Save),
            up(Widget::Input(4), Widget::Input(7)),
            up(Widget::Input(8), Widget::Save),
            up(Widget::Input(5), Widget::Input(8)),
        ]
    );
}

#[test]
fn script_loading() {
    let mut queue = vec![ScriptToLoad { handle: 1, reload: false }];
    queue_script_events(&mut queue, vec![ScriptEvent::Modified(2), ScriptEvent::Removed(3), ScriptEvent::Created(4)]);
    let handles: Vec<(i32, bool)> = queue.iter().map(|s| (s.handle, s.reload)).collect();
    assert_eq!(handles, vec![(1, false), (2, true), (4, false)]);
    let (now, later) = split_loadable(queue, &vec![true, false, true]);
    assert_eq!(now.iter().map(|s| s.handle).collect::<Vec<_>>(), vec![1, 4]);
    assert_eq!(later.iter().map(|s| s.handle).collect::<Vec<_>>(), vec![2]);
    assert!(should_load_script(true, true));
    assert!(!should_load_script(false, true));
    assert_eq!(LogLevel::from_name("warn"), LogLevel::Warn);
    assert_eq!(LogLevel::from_name("shout"), LogLevel::Info);
    assert_eq!(script_source("a.js", "init()"), "Punchy.SCRIPT_PATH = 'a.js'; init()");
}

#[test]
fn player_controls() {
    let c = PlayerControlMethods { gamepad: "pad", keyboard1: "wasd", keyboard2: "arrows" };
    assert_eq!(c.get_controls(0), vec![&"pad", &"wasd"]);
    assert_eq!(c.get_controls(1), vec![&"pad", &"arrows"]);
    assert_eq!(c.get_controls(2), vec![&"pad"]);
}

fn controls(prefix: &str) -> PlayerControls<String> {
    let k = |name: &str| format!("{}-{}", prefix, name);
    PlayerControls {
        movement: VirtualDPad { up: k("up"), down: k("down"), left: k("left"), right: k("right") },
        flop_attack: k("flop"),
        throw: k("throw"),
        shoot: k("shoot"),
    }
}

#[test]
fn binding_a_control_changes_only_its_cell() {
    let mut m = PlayerControlMethods { gamepad: controls("pad"), keyboard1: controls("k1"), keyboard2: controls("k2") };
    // Cell 5: row 1 (move down), column 2 (gamepad).
    bind_control(&mut m, 5, "DPadDown".to_string());
    assert_eq!(m.gamepad.movement.down, "DPadDown");
    assert_eq!(m.gamepad.movement.up, "pad-up");
    assert_eq!(m.keyboard1.movement.down, "k1-down");
    assert_eq!(m.keyboard2.movement.down, "k2-down");
    // Cell 19: row 6 (throw), column 1 (second keyboard).
    bind_control(&mut m, 19, "RShift".to_string());
    assert_eq!(m.keyboard2.throw, "RShift");
    assert_eq!(m.keyboard2.shoot, "k2-shoot");
    // Cell 15: row 5 (shoot), column 0 (first keyboard).
    bind_control(&mut m, 15, "F".to_string());
    assert_eq!(m.keyboard1.shoot, "F");
    assert_eq!(m.keyboard1.flop_attack, "k1-flop");
}

#[test]
fn settings_page_clicks() {
    let settings = MenuPage::Settings { tab: SettingsTab::Controls };
    assert_eq!(
        settings_click(settings, SettingsClick::Tab(SettingsTab::Sound)),
        (MenuPage::Settings { tab: SettingsTab::Sound }, false)
    );
    assert_eq!(settings_click(settings, SettingsClick::Cancel), (MenuPage::Main, false));
    assert_eq!(settings_click(settings, SettingsClick::Save), (MenuPage::Main, true));
    assert_eq!(settings_click(MenuPage::Main, SettingsClick::Save), (MenuPage::Main, false));
    assert_eq!(MenuPage::Settings { tab: SettingsTab::Sound }.back(), MenuPage::Main);
}

#[test]
fn collision_groups_interact_across_teams() {
    let player_attack = attack_groups(Team::Players);
    let enemy_attack = attack_groups(Team::Enemies);
    let player_body = body_groups(fighter_body_layer(true, false));
    let enemy_body = body_groups(fighter_body_layer(false, true));
    assert!(player_attack.interacts(&enemy_body));
    assert!(!player_attack.interacts(&player_body));
    assert!(enemy_attack.interacts(&player_body));
    assert!(!enemy_attack.interacts(&enemy_body));
    assert!(player_attack.interacts(&punchy::collision::breakable_item_groups()));
    assert!(!enemy_attack.interacts(&punchy::collision::breakable_item_groups()));
}

#[test]
fn hitboxes_come_out_with_hitbox_data_only() {
    let frames = AttackFrames { startup: 2, active: 4, recovery: 6 };
    assert!(!activates_hitbox(&frames, 1, true, false));
    assert!(activates_hitbox(&frames, 2, true, false));
    assert!(activates_hitbox(&frames, 4, true, false));
    assert!(!activates_hitbox(&frames, 5, true, false));
    assert!(!activates_hitbox(&frames, 3, false, false));
    assert!(!activates_hitbox(&frames, 3, true, true));
    assert!(!deactivates_hitbox(&frames, 5, true));
    assert!(deactivates_hitbox(&frames, 6, true));
    assert!(!deactivates_hitbox(&frames, 7, false));
}
