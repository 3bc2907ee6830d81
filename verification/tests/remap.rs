//! Plans of virtual controllers and the routing of events.

use std::collections::HashMap;
use winctrl_config::axis_curve::CurveData;
use winctrl_config::livemon;
use winctrl_config::livemon::{AxisState, LiveState, BTN_JOYSTICK, EV_ABS, EV_KEY, EV_SYN};
use winctrl_config::native;
use winctrl_config::remap::{
    build_plan, midpoint, out_button_code, pack_user_dev, plan_remap, plan_split, preview, setup,
    side_suffix, source_name, virtual_base_name, AxisSpec, RouteStep, Router, MAX_OUTPUT_ORDINAL,
    UI_SET_ABSBIT, UI_SET_EVBIT, UI_SET_KEYBIT,
};

fn buttons(n: usize) -> Vec<u16> {
    (0..n as u16).map(|i| BTN_JOYSTICK + i).collect()
}

#[test]
fn out_codes_avoid_gamepad_range() {
    assert_eq!(out_button_code(0), 0x120);
    assert_eq!(out_button_code(15), 0x12F);
    assert_eq!(out_button_code(16), 0x2C0);
    assert_eq!(out_button_code(MAX_OUTPUT_ORDINAL - 1), 0x2FF);
    assert!(out_button_code(MAX_OUTPUT_ORDINAL - 1) <= livemon::KEY_MAX);
}

fn no_curves() -> HashMap<u16, CurveData> {
    HashMap::new()
}

#[test]
fn split_distributes_and_axes_on_first_only() {
    let axes = vec![AxisSpec::new(0, 0, 65535)];
    let plan = plan_split(&buttons(40), &axes, &no_curves(), 2, 32, "URSA");
    assert_eq!(plan.n_slots(), 2);
    assert_eq!(plan.slots[0].buttons.len(), 32);
    assert_eq!(plan.slots[1].buttons.len(), 8);
    assert!(!plan.slots[0].axes.is_empty());
    assert!(plan.slots[1].axes.is_empty());
    assert_eq!(plan.key_route[&(BTN_JOYSTICK + 32)], vec![(1, 0x120)]);
}

#[test]
fn split_drops_beyond_capacity() {
    let plan = plan_split(&buttons(70), &[], &no_curves(), 2, 32, "URSA");
    assert_eq!(plan.dropped, 70 - 64);
}

#[test]
fn remap_identity_by_default() {
    let plan = plan_remap(&buttons(3), &[], &no_curves(), &HashMap::new(), "r").unwrap();
    assert_eq!(plan.key_route[&BTN_JOYSTICK], vec![(0, out_button_code(0))]);
    assert_eq!(plan.slots[0].buttons.len(), 3);
}

#[test]
fn remap_override_applies() {
    let mut ov = HashMap::new();
    ov.insert(1u32, 5u32);
    let plan = plan_remap(&buttons(3), &[], &no_curves(), &ov, "r").unwrap();
    assert_eq!(plan.key_route[&BTN_JOYSTICK], vec![(0, out_button_code(4))]);
    assert_eq!(plan.slots[0].buttons.len(), 5);
}

#[test]
fn remap_rejects_out_of_range() {
    let mut ov = HashMap::new();
    ov.insert(1u32, 999u32);
    assert!(plan_remap(&buttons(3), &[], &no_curves(), &ov, "r").is_err());
    ov.clear();
    ov.insert(9u32, 2u32);
    assert!(plan_remap(&buttons(3), &[], &no_curves(), &ov, "r").is_err());
}

#[test]
fn remap_drops_phantom_high_buttons() {
    let plan = plan_remap(&buttons(82), &[], &no_curves(), &HashMap::new(), "r").unwrap();
    assert_eq!(plan.dropped, 2);
    assert_eq!(plan.slots[0].buttons.len(), MAX_OUTPUT_ORDINAL);
}

#[test]
fn translate_filters_unknown() {
    let plan = plan_split(&buttons(2), &[], &no_curves(), 2, 32, "URSA");
    assert!(plan.translate(EV_KEY, 0x999, 1, 0).is_empty());
    assert_eq!(
        plan.translate(EV_KEY, BTN_JOYSTICK, 1, 0),
        vec![(0, EV_KEY, 0x120, 1)]
    );
}

#[test]
fn translate_passes_axis_through_without_curve() {
    let axes = vec![AxisSpec::new(livemon::ABS_THROTTLE, 0, 4095)];
    let plan = plan_split(&buttons(2), &axes, &no_curves(), 2, 32, "URSA");
    assert!(plan.abs_curve.is_empty());
    assert_eq!(
        plan.translate(EV_ABS, livemon::ABS_THROTTLE, 1000, 7),
        vec![(0, EV_ABS, livemon::ABS_THROTTLE, 1000)]
    );
}

#[test]
fn translate_applies_reverse_curve_to_axis() {
    let code = livemon::ABS_THROTTLE;
    let axes = vec![AxisSpec::new(code, 0, 4095)];
    let mut curves = HashMap::new();
    curves.insert(
        code,
        CurveData {
            is_reversed: true,
            ..Default::default()
        },
    );
    let plan = plan_split(&buttons(2), &axes, &curves, 2, 32, "URSA");
    assert_eq!(plan.abs_curve.len(), 1);
    assert_eq!(plan.translate(EV_ABS, code, 0, 7), vec![(0, EV_ABS, code, 4095)]);
    assert_eq!(plan.translate(EV_ABS, code, 4095, 7), vec![(0, EV_ABS, code, 0)]);
}

#[test]
fn rotation_group_pairs_two_axes() {
    let (x, y) = (livemon::ABS_X, livemon::ABS_Y);
    let axes = vec![AxisSpec::new(x, -100, 100), AxisSpec::new(y, -100, 100)];
    let rot = CurveData {
        rotate: 15,
        rotate_group: 1,
        ..Default::default()
    };
    let mut curves = HashMap::new();
    curves.insert(x, rot);
    curves.insert(y, rot);
    let plan = plan_split(&buttons(2), &axes, &curves, 2, 32, "URSA");
    assert_eq!(plan.rotations.len(), 2);
    let link = &plan.rotations[&x];
    assert_eq!((link.a, link.b), (x, y));
    assert_eq!(link.angle_deg, 15);
    assert!(plan.abs_curve.is_empty());
}

#[test]
fn lone_rotation_axis_makes_no_group() {
    let x = livemon::ABS_X;
    let axes = vec![AxisSpec::new(x, -100, 100)];
    let mut curves = HashMap::new();
    curves.insert(
        x,
        CurveData {
            rotate: 15,
            rotate_group: 1,
            ..Default::default()
        },
    );
    let plan = plan_split(&buttons(2), &axes, &curves, 2, 32, "URSA");
    assert!(plan.rotations.is_empty(), "un couple exige 2 axes");
}

#[test]
fn remap_identity_curve_is_not_stored() {
    let code = livemon::ABS_X;
    let axes = vec![AxisSpec::new(code, 0, 65535)];
    let mut curves = HashMap::new();
    curves.insert(code, CurveData::default());
    let plan = plan_remap(&buttons(2), &axes, &curves, &HashMap::new(), "r").unwrap();
    assert!(plan.abs_curve.is_empty(), "l'identité ne doit pas être routée");
}

#[test]
fn pack_user_dev_is_1116_bytes() {
    let axes = vec![AxisSpec::new(0, 0, 65535)];
    assert_eq!(pack_user_dev("t", 0xBCF0, 0, &axes).len(), 1116);
}

#[test]
fn a_curved_axis_stays_in_its_range() {
    let code = livemon::ABS_X;
    let axes = vec![AxisSpec::new(code, -100, 100)];
    let mut curves = HashMap::new();
    curves.insert(code, CurveData { curve: 9, ..Default::default() });
    let plan = plan_remap(&buttons(1), &axes, &curves, &HashMap::new(), "r").unwrap();
    assert_eq!(plan.shape_axis(code, 50, 31), 31);
    assert_eq!(plan.shape_axis(code, 50, 500), 100);
    assert_eq!(plan.shape_axis(code, 50, -500), -100);
    assert_eq!(plan.shape_axis(livemon::ABS_Y, 50, 500), 50);
}

#[test]
fn split_slots_are_named_and_counted() {
    let plan = plan_split(&buttons(33), &[], &no_curves(), 2, 32, "URSA");
    assert_eq!(plan.mode, "split");
    assert_eq!(plan.slots[0].name, "URSA (1/2)");
    assert_eq!(plan.slots[1].name, "URSA (2/2)");
    assert_eq!(plan.slots[1].buttons, vec![0x120]);
    assert_eq!(plan.dropped, 0);
    assert_eq!(plan.source_buttons, 33);
    let none = plan_split(&buttons(3), &[], &no_curves(), 0, 32, "URSA");
    assert_eq!(none.dropped, 3);
    assert!(none.key_route.is_empty());
}

#[test]
fn a_refused_override_is_named() {
    let mut ov = HashMap::new();
    ov.insert(2u32, 81u32);
    assert_eq!(
        plan_remap(&buttons(3), &[], &no_curves(), &ov, "r").unwrap_err(),
        "remap invalide : 2->81 (source 1..3, sortie 1..80)"
    );
}

#[test]
fn an_override_brings_a_high_button_back() {
    let mut ov = HashMap::new();
    ov.insert(82u32, 1u32);
    let plan = plan_remap(&buttons(82), &[], &no_curves(), &ov, "r").unwrap();
    assert_eq!(plan.dropped, 1);
    assert_eq!(plan.key_route[&(BTN_JOYSTICK + 81)], vec![(0, 0x120)]);
}

#[test]
fn rotation_angle_is_bounded_and_codes_are_ordered() {
    let (x, y) = (livemon::ABS_X, livemon::ABS_Y);
    let axes = vec![AxisSpec::new(y, 0, 10), AxisSpec::new(x, -100, 100)];
    let mut curves = HashMap::new();
    curves.insert(x, CurveData { rotate: 90, rotate_group: 3, ..Default::default() });
    curves.insert(y, CurveData { rotate: 5, rotate_group: 3, ..Default::default() });
    let plan = plan_split(&buttons(2), &axes, &curves, 2, 32, "URSA");
    let link = plan.rotations[&y];
    assert_eq!(link, plan.rotations[&x]);
    assert_eq!((link.a, link.b, link.angle_deg), (x, y, 25));
    assert_eq!((link.a_min, link.a_max, link.b_min, link.b_max), (-100, 100, 0, 10));
}

#[test]
fn three_axes_in_a_group_do_not_turn() {
    let axes: Vec<AxisSpec> = (0..3).map(|c| AxisSpec::new(c, 0, 10)).collect();
    let curves: HashMap<u16, CurveData> = (0..3)
        .map(|c| (c, CurveData { rotate: 5, rotate_group: 1, ..Default::default() }))
        .collect();
    let plan = plan_split(&[], &axes, &curves, 1, 32, "URSA");
    assert!(plan.rotations.is_empty());
}

#[test]
fn midpoints() {
    assert_eq!(midpoint(0, 10), 5);
    assert_eq!(midpoint(0, 11), 5);
    assert_eq!(midpoint(-11, 0), -6);
    assert_eq!(midpoint(10, 5), 8);
}

fn live(n: u16) -> LiveState {
    let axis = AxisState {
        code: livemon::ABS_X,
        name: "X".into(),
        desc: "",
        minimum: -100,
        maximum: 100,
        value: 0,
        centered: true,
    };
    LiveState {
        axes: vec![axis],
        buttons: buttons(n as usize),
        ..Default::default()
    }
}

#[test]
fn plans_of_a_live_joystick() {
    let st = live(40);
    let none = HashMap::new();
    let split = build_plan(&st, "WINWING URSA MINOR R ", "split", &none, &no_curves()).unwrap();
    assert_eq!(split.slots[0].name, "WinWing URSA MINOR R (1/2)");
    assert_eq!(split.slots[0].axes, vec![AxisSpec::new(livemon::ABS_X, -100, 100)]);
    let remap = build_plan(&st, "URSA L", "remap", &none, &no_curves()).unwrap();
    assert_eq!(remap.slots[0].name, "WinWing URSA MINOR L (remap)");
    let mut ov = HashMap::new();
    ov.insert(1u32, 99u32);
    let curve = build_plan(&st, "URSA", "curve", &ov, &no_curves()).unwrap();
    assert_eq!(curve.slots[0].name, "WinWing URSA MINOR (courbe)");
    assert_eq!((split.mode, remap.mode, curve.mode), ("split", "remap", "curve"));
    assert!(build_plan(&st, "URSA", "remap", &ov, &no_curves()).is_err());
    assert_eq!(
        build_plan(&st, "URSA", "other", &none, &no_curves()).unwrap_err(),
        "mode inconnu : other"
    );
}

#[test]
fn names_of_joysticks() {
    assert_eq!(source_name(Some(b"URSA MINOR R\0\0junk")), "URSA MINOR R");
    assert_eq!(source_name(Some(&[0xFF, 65, 0xC3, 0xA9])), "\u{FFFD}Aé");
    assert_eq!(source_name(None), "");
    assert_eq!(side_suffix("Stick L \n"), " L");
    assert_eq!(side_suffix("Stick"), "");
    assert_eq!(virtual_base_name("x R"), "WinWing URSA MINOR R");
}

#[test]
fn the_router_syncs_all_and_drops_repeats() {
    let plan = plan_split(&buttons(40), &[], &no_curves(), 2, 32, "URSA");
    let mut r = Router::new(plan);
    assert_eq!(
        r.route(EV_SYN, 0, 0, 0),
        RouteStep::Emit(vec![(0, EV_SYN, 0, 0), (1, EV_SYN, 0, 0)])
    );
    assert_eq!(r.route(EV_KEY, BTN_JOYSTICK, 2, 0), RouteStep::Emit(vec![]));
    assert_eq!(
        r.route(EV_KEY, BTN_JOYSTICK + 32, 1, 0),
        RouteStep::Emit(vec![(1, EV_KEY, 0x120, 1)])
    );
}

#[test]
fn the_router_turns_a_pair_with_its_last_values() {
    let (x, y) = (livemon::ABS_X, livemon::ABS_Y);
    let axes = vec![AxisSpec::new(x, -100, 100), AxisSpec::new(y, 0, 50)];
    let rot = CurveData { rotate: 15, rotate_group: 1, ..Default::default() };
    let curves: HashMap<u16, CurveData> = [(x, rot), (y, rot)].into_iter().collect();
    let plan = plan_split(&[], &axes, &curves, 1, 32, "URSA");
    let mut r = Router::new(plan);
    let link = match r.route(EV_ABS, x, 40, 0) {
        RouteStep::Rotate { link, a_value, b_value } => {
            assert_eq!((a_value, b_value), (40, 25));
            link
        }
        other => panic!("{other:?}"),
    };
    match r.route(EV_ABS, y, 10, 0) {
        RouteStep::Rotate { a_value, b_value, .. } => assert_eq!((a_value, b_value), (40, 10)),
        other => panic!("{other:?}"),
    }
    assert_eq!(
        r.turn(&link, 40, 10, (999, 7)),
        vec![(0, EV_ABS, x, 100), (0, EV_ABS, y, 7)]
    );
}

#[test]
fn declaration_of_a_controller() {
    let axes = vec![AxisSpec::new(livemon::ABS_Y, 0, 9)];
    let plan = plan_split(&buttons(2), &axes, &no_curves(), 1, 32, "URSA");
    assert_eq!(
        setup(&plan.slots[0]),
        vec![
            (UI_SET_EVBIT, 0),
            (UI_SET_EVBIT, 1),
            (UI_SET_KEYBIT, 0x120),
            (UI_SET_KEYBIT, 0x121),
            (UI_SET_EVBIT, 3),
            (UI_SET_ABSBIT, 1),
        ]
    );
    let empty = plan_split(&[], &[], &no_curves(), 1, 32, "URSA");
    assert_eq!(setup(&empty.slots[0]), vec![(UI_SET_EVBIT, 0)]);
}

#[test]
fn layout_of_a_declaration() {
    let axes = vec![AxisSpec::new(2, -5, 1000), AxisSpec::new(200, 1, 2)];
    let b = pack_user_dev("Émile", 0xBCF1, 7, &axes);
    assert_eq!(&b[..6], "Émile".as_bytes());
    assert!(b[6..80].iter().all(|&x| x == 0));
    let u16_at = |i: usize| u16::from_ne_bytes([b[i], b[i + 1]]);
    let i32_at = |i: usize| i32::from_ne_bytes([b[i], b[i + 1], b[i + 2], b[i + 3]]);
    assert_eq!((u16_at(80), u16_at(82), u16_at(84), u16_at(86)), (6, 0x4098, 0xBCF1, 7));
    assert_eq!(i32_at(88), 0);
    assert_eq!(i32_at(92 + 8), 1000);
    assert_eq!(i32_at(348 + 8), -5);
    assert!(b[604..].iter().all(|&x| x == 0));
    let long = "x".repeat(100);
    let b = pack_user_dev(&long, 0, 0, &[]);
    assert_eq!((b[78], b[79]), (120, 0));
    assert_eq!(b.len(), 1116);
    assert_eq!(native::is_little(), 1u16.to_ne_bytes()[0] == 1);
}

#[test]
fn previews() {
    let axes = vec![AxisSpec::new(0, 0, 1)];
    let plan = plan_split(&buttons(70), &axes, &no_curves(), 2, 32, "URSA");
    assert_eq!(
        preview(&plan, "/dev/input/event3"),
        "Split 2×32 (contournement de la limite 32 boutons)\n\
         \u{20} source : /dev/input/event3 — 70 boutons, 1 axes\n\
         \u{20} → 2 périphérique(s) virtuel(s) :\n\
         \u{20}    • URSA (1/2) : boutons 1–32  (+ 1 axes)\n\
         \u{20}    • URSA (2/2) : boutons 33–64  (+ 0 axes)\n\
         \u{20} (6 boutons déclarés au-delà de la capacité, non exposés — souvent des slots \
         fantômes du firmware)."
    );
    let plan = plan_remap(&buttons(3), &[], &no_curves(), &HashMap::new(), "r").unwrap();
    assert_eq!(
        preview(&plan, "n"),
        "Remap de boutons (1 périphérique virtuel)\n  source : n — 3 boutons, 0 axes\n  \
         → 1 périphérique(s) virtuel(s) :\n     • r : 3 boutons  (+ 0 axes)"
    );
}
