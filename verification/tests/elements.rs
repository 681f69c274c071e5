use zztff::{element_id_from_name, element_name, resolve_alias, Element};

#[test]
fn ids_and_from_u8_agree() {
    for id in 0..=255u8 {
        match Element::from_u8(id) {
            Some(e) => {
                assert_eq!(e.id(), id);
                assert_eq!(u8::from(e), id);
            }
            None => assert!(id == 46 || id > 53),
        }
    }
    assert_eq!(Element::from_u8(0), Some(Element::Empty));
    assert_eq!(Element::from_u8(4), Some(Element::Player));
    assert_eq!(Element::from_u8(45), Some(Element::Segment));
    assert_eq!(Element::from_u8(46), None);
    assert_eq!(Element::from_u8(47), Some(Element::TextBlue));
    assert_eq!(Element::from_u8(53), Some(Element::TextBlack));
    assert_eq!(Element::from_u8(54), None);
    assert_eq!(Element::Object.id(), 36);
}

#[test]
fn names() {
    assert_eq!(Element::Empty.name(), "empty");
    assert_eq!(Element::BoardEdge.name(), "board_edge");
    assert_eq!(Element::SliderNs.name(), "sliderns");
    assert_eq!(Element::BlinkRayH.name(), "blink_ray_h");
    assert_eq!(Element::SpinningGun.name(), "spinninggun");
    assert_eq!(Element::TextBlack.name(), "text_black");
    assert_eq!(element_name(22), "normal");
    assert_eq!(element_name(46), "unknown (46)");
    assert_eq!(element_name(255), "unknown (255)");
    assert_eq!(element_name(54), "unknown (54)");
}

#[test]
fn names_map_back_to_ids() {
    for id in 0..=255u8 {
        if let Some(e) = Element::from_u8(id) {
            assert_eq!(element_id_from_name(e.name()), Some(id));
        }
    }
    assert_eq!(element_id_from_name("player"), Some(4));
    assert_eq!(element_id_from_name("Player"), None);
    assert_eq!(element_id_from_name("nothing"), None);
    assert_eq!(element_id_from_name(""), None);
}

#[test]
fn unknown_names_carry_their_number() {
    assert_eq!(element_id_from_name("unknown_46"), Some(46));
    assert_eq!(element_id_from_name("unknown_200"), Some(200));
    assert_eq!(element_id_from_name("unknown_0"), Some(0));
    assert_eq!(element_id_from_name("unknown_007"), Some(7));
    assert_eq!(element_id_from_name("unknown_+7"), Some(7));
    assert_eq!(element_id_from_name("unknown_255"), Some(255));
    assert_eq!(element_id_from_name("unknown_256"), None);
    assert_eq!(element_id_from_name("unknown_"), None);
    assert_eq!(element_id_from_name("unknown_+"), None);
    assert_eq!(element_id_from_name("unknown_-1"), None);
    assert_eq!(element_id_from_name("unknown_4x"), None);
    assert_eq!(element_id_from_name("unknown (46)"), None);
}

#[test]
fn parameter_aliases() {
    assert_eq!(Element::Object.p1_alias(), Some("char"));
    assert_eq!(Element::Bear.p1_alias(), Some("sensitivity"));
    assert_eq!(Element::BlinkWall.p1_alias(), Some("start_time"));
    assert_eq!(Element::BlinkWall.p2_alias(), Some("period"));
    assert_eq!(Element::Duplicator.p2_alias(), Some("rate"));
    assert_eq!(Element::Passage.p3_alias(), Some("destination"));
    assert_eq!(Element::Tiger.p3_alias(), Some("firing_type"));
    assert_eq!(Element::Player.p1_alias(), None);
    assert_eq!(Element::Player.p2_alias(), None);
    assert_eq!(Element::Player.p3_alias(), None);
}

#[test]
fn alias_to_param_by_element() {
    assert_eq!(Element::Tiger.alias_to_param("intelligence"), Some(1));
    assert_eq!(Element::Tiger.alias_to_param("firing_rate"), Some(2));
    assert_eq!(Element::Tiger.alias_to_param("firing_type"), Some(3));
    assert_eq!(Element::Tiger.alias_to_param("char"), None);
    assert_eq!(Element::Empty.alias_to_param("char"), None);
}

#[test]
fn resolve_alias_with_and_without_element() {
    assert_eq!(resolve_alias("char", Some(Element::Object)), Some(1));
    assert_eq!(resolve_alias("speed", Some(Element::Slime)), Some(2));
    // falls back to the table of all aliases
    assert_eq!(resolve_alias("char", Some(Element::Tiger)), Some(1));
    assert_eq!(resolve_alias("deviance", None), Some(2));
    assert_eq!(resolve_alias("resting_time", None), Some(2));
    assert_eq!(resolve_alias("destination", None), Some(3));
    assert_eq!(resolve_alias("start_time", None), Some(1));
    assert_eq!(resolve_alias("bogus", None), None);
    assert_eq!(resolve_alias("bogus", Some(Element::Object)), None);
}

#[test]
fn names_are_distinct_lowercase_and_not_unknown() {
    let all: Vec<Element> = (0..=255u8).filter_map(Element::from_u8).collect();
    assert_eq!(all.len(), 53);
    for (i, a) in all.iter().enumerate() {
        let name = a.name();
        assert!(!name.is_empty());
        assert!(name.chars().all(|c| c.is_ascii_lowercase() || c == '_'));
        assert!(!name.starts_with("unknown"));
        for b in &all[i + 1..] {
            assert_ne!(name, b.name());
        }
    }
}

#[test]
fn element_never_changes_resolved_alias() {
    let aliases = [
        "char", "sensitivity", "intelligence", "start_time", "rate", "period", "resting_time",
        "speed", "firing_rate", "deviance", "destination", "firing_type", "p1", "bogus",
    ];
    for alias in aliases {
        for id in 0..=255u8 {
            if let Some(e) = Element::from_u8(id) {
                assert_eq!(resolve_alias(alias, Some(e)), resolve_alias(alias, None));
            }
        }
    }
}
