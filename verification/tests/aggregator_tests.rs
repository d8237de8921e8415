use alt::aggregator::{effect_message, AndAgg, EvAggregator};
use alt::config::{Agg, AltCfg, Requirement};
use alt::events::{AltEvent, ExtEvent, ExtEventState, FocusEvent};

fn ivy_cfg() -> AltCfg {
    AltCfg {
        aggs: vec![Agg {
            requirements: vec![
                Requirement::RqFocus("emacs".to_string()),
                Requirement::RqExtEvent("ivy".to_string()),
            ],
            on_ipc: "TurnOnLayerAlias(\"ivy\")".to_string(),
            off_ipc: "TurnOffLayerAlias(\"ivy\")".to_string(),
        }],
    }
}

fn focus(w: &str) -> AltEvent {
    AltEvent::AltFocusEvent(FocusEvent { window: w.to_string() })
}

fn ext(n: &str, on: bool) -> AltEvent {
    AltEvent::AltExtEvent(ExtEvent {
        name: n.to_string(),
        state: if on { ExtEventState::On } else { ExtEventState::Off },
    })
}

const ON_MSG: &str = "IpcDoEffect((fx: TurnOnLayerAlias(\"ivy\"), val: Press))";
const OFF_MSG: &str = "IpcDoEffect((fx: TurnOffLayerAlias(\"ivy\"), val: Press))";

#[test]
fn effect_message_wraps_request() {
    assert_eq!(effect_message("Foo"), "IpcDoEffect((fx: Foo, val: Press))");
}

#[test]
fn fresh_aggregator_is_off() {
    let agg = AndAgg::new(vec![Requirement::RqExtEvent("a".to_string())], "on".to_string(), "off".to_string());
    assert!(!agg.state());
    assert!(!agg.is_on());
}

#[test]
fn empty_requirements_are_met() {
    let agg = AndAgg::new(vec![], "on".to_string(), "off".to_string());
    assert!(agg.is_on());
}

#[test]
fn readme_ivy_scenario() {
    let mut a = EvAggregator::new(ivy_cfg());
    assert_eq!(a.states(), vec![false]);
    // Emacs in focus, ivy not yet active
    assert!(a.handle_event(&focus("GNU Emacs")).is_empty());
    // ivy becomes active: all requirements met
    assert_eq!(a.handle_event(&ext("ivy", true)), vec![ON_MSG.to_string()]);
    assert_eq!(a.states(), vec![true]);
    // focus leaves emacs
    assert_eq!(a.handle_event(&focus("Firefox")), vec![OFF_MSG.to_string()]);
    assert_eq!(a.states(), vec![false]);
    // back to emacs, ivy still on
    assert_eq!(a.handle_event(&focus("emacs@host")), vec![ON_MSG.to_string()]);
    // ivy off
    assert_eq!(a.handle_event(&ext("ivy", false)), vec![OFF_MSG.to_string()]);
}

#[test]
fn focus_pattern_matches_lowercased_title() {
    let mut a = EvAggregator::new(ivy_cfg());
    a.handle_event(&ext("ivy", true));
    assert_eq!(a.handle_event(&focus("EMACS")), vec![ON_MSG.to_string()]);
}

#[test]
fn other_ext_names_are_ignored() {
    let mut a = EvAggregator::new(ivy_cfg());
    a.handle_event(&focus("emacs"));
    assert!(a.handle_event(&ext("helm", true)).is_empty());
    assert_eq!(a.states(), vec![false]);
}

#[test]
fn repeated_event_is_silent() {
    let mut a = EvAggregator::new(ivy_cfg());
    a.handle_event(&focus("emacs"));
    assert_eq!(a.handle_event(&ext("ivy", true)), vec![ON_MSG.to_string()]);
    assert!(a.handle_event(&ext("ivy", true)).is_empty());
    assert_eq!(a.states(), vec![true]);
    assert_eq!(a.handle_event(&focus("vim")), vec![OFF_MSG.to_string()]);
    assert!(a.handle_event(&focus("vim")).is_empty());
}

#[test]
fn focus_and_ext_commute() {
    let mut a = EvAggregator::new(ivy_cfg());
    a.handle_event(&focus("emacs"));
    a.handle_event(&ext("ivy", true));
    let mut b = EvAggregator::new(ivy_cfg());
    b.handle_event(&ext("ivy", true));
    b.handle_event(&focus("emacs"));
    assert_eq!(a.states(), b.states());
    assert_eq!(a.states(), vec![true]);
}

#[test]
fn latest_focus_wins() {
    let mut a = EvAggregator::new(ivy_cfg());
    a.handle_event(&ext("ivy", true));
    a.handle_event(&focus("emacs"));
    a.handle_event(&focus("term"));
    assert_eq!(a.states(), vec![false]);
    a.handle_event(&focus("term"));
    a.handle_event(&focus("emacs"));
    assert_eq!(a.states(), vec![true]);
}

#[test]
fn latest_ext_wins() {
    let mut a = EvAggregator::new(ivy_cfg());
    a.handle_event(&focus("emacs"));
    a.handle_event(&ext("ivy", false));
    a.handle_event(&ext("ivy", true));
    assert_eq!(a.states(), vec![true]);
}

#[test]
fn several_aggregators_report_in_order() {
    let cfg = AltCfg {
        aggs: vec![
            Agg {
                requirements: vec![Requirement::RqExtEvent("a".to_string())],
                on_ipc: "A1".to_string(),
                off_ipc: "A0".to_string(),
            },
            Agg {
                requirements: vec![Requirement::RqExtEvent("a".to_string()), Requirement::RqExtEvent("a".to_string())],
                on_ipc: "B1".to_string(),
                off_ipc: "B0".to_string(),
            },
        ],
    };
    let mut agg = EvAggregator::new(cfg);
    assert_eq!(
        agg.handle_event(&ext("a", true)),
        vec![effect_message("A1"), effect_message("B1")]
    );
    assert_eq!(
        agg.handle_event(&ext("a", false)),
        vec![effect_message("A0"), effect_message("B0")]
    );
}

#[test]
fn no_aggregators_no_effects() {
    let mut a = EvAggregator::new(AltCfg { aggs: vec![] });
    assert!(a.handle_event(&focus("emacs")).is_empty());
    assert!(a.states().is_empty());
}

#[test]
fn ext_events_on_different_names_commute() {
    let cfg = || AltCfg {
        aggs: vec![Agg {
            requirements: vec![
                Requirement::RqExtEvent("a".to_string()),
                Requirement::RqExtEvent("b".to_string()),
            ],
            on_ipc: "ON".to_string(),
            off_ipc: "OFF".to_string(),
        }],
    };
    let mut x = EvAggregator::new(cfg());
    x.handle_event(&ext("a", true));
    x.handle_event(&ext("b", true));
    let mut y = EvAggregator::new(cfg());
    y.handle_event(&ext("b", true));
    y.handle_event(&ext("a", true));
    assert_eq!(x.states(), y.states());
    assert_eq!(x.states(), vec![true]);
}
