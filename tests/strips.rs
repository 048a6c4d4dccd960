use evert::{parse_parts, replication_plan, PartsError, StripTransform, PART_BOTH, PART_NEG, PART_POS};

fn chars(s: &str) -> Vec<char> {
    s.chars().collect()
}

#[test]
fn strip_selection_scenario() {
    let mask = parse_parts(&chars("+0-0+2+4+6"), 8).unwrap();
    assert_eq!(mask, vec![PART_BOTH, 0, PART_POS, 0, PART_POS, 0, PART_POS, 0]);
}

#[test]
fn unsigned_strip_selects_both_directions() {
    assert_eq!(parse_parts(&chars("3"), 4).unwrap(), vec![0, 0, 0, PART_BOTH]);
    assert_eq!(parse_parts(&chars("-2 , 1"), 3).unwrap(), vec![0, PART_BOTH, PART_NEG]);
    assert_eq!(parse_parts(&chars("+12"), 13).unwrap()[12], PART_POS);
}

#[test]
fn star_selects_every_strip() {
    assert_eq!(parse_parts(&chars("*"), 3).unwrap(), vec![PART_BOTH; 3]);
    assert_eq!(parse_parts(&chars("-*"), 2).unwrap(), vec![PART_NEG; 2]);
    assert_eq!(parse_parts(&chars("+*,-1"), 2).unwrap(), vec![PART_POS, PART_BOTH]);
}

#[test]
fn selection_without_token_is_refused() {
    assert_eq!(parse_parts(&chars("+x"), 8), Err(PartsError::MissingToken));
    assert_eq!(parse_parts(&chars("x"), 8), Err(PartsError::MissingToken));
    assert_eq!(parse_parts(&chars("+0-"), 8), Err(PartsError::MissingToken));
    assert_eq!(parse_parts(&chars(""), 8), Err(PartsError::MissingToken));
    assert_eq!(parse_parts(&chars(" ,"), 8), Err(PartsError::MissingToken));
}

#[test]
fn strip_out_of_range_is_refused() {
    assert_eq!(parse_parts(&chars("+8"), 8), Err(PartsError::BadStrip));
    assert_eq!(parse_parts(&chars("+0+8"), 8), Err(PartsError::BadStrip));
    assert_eq!(parse_parts(&chars("99999999999999999999999"), 8), Err(PartsError::BadStrip));
}

#[test]
fn replication_plan_orders_sides() {
    let mask = parse_parts(&chars("+0-0+2+4+6"), 8).unwrap();
    let plan = replication_plan(&mask);
    let expected = vec![
        StripTransform { strip: 0, negative: true, turn: 7 },
        StripTransform { strip: 0, negative: false, turn: 0 },
        StripTransform { strip: 2, negative: false, turn: 2 },
        StripTransform { strip: 4, negative: false, turn: 4 },
        StripTransform { strip: 6, negative: false, turn: 6 },
    ];
    assert_eq!(plan, expected);
}

#[test]
fn replication_plan_of_empty_mask() {
    assert!(replication_plan(&[0u8, 0, 0]).is_empty());
    assert!(replication_plan(&[]).is_empty());
    let plan = replication_plan(&[PART_NEG, PART_NEG]);
    assert_eq!(
        plan,
        vec![
            StripTransform { strip: 0, negative: true, turn: 1 },
            StripTransform { strip: 1, negative: true, turn: 0 },
        ]
    );
}

#[test]
fn replication_plan_covers_every_request() {
    let mask = parse_parts(&chars("*"), 3).unwrap();
    let plan = replication_plan(&mask);
    let expected = vec![
        StripTransform { strip: 0, negative: true, turn: 2 },
        StripTransform { strip: 1, negative: true, turn: 1 },
        StripTransform { strip: 2, negative: true, turn: 0 },
        StripTransform { strip: 0, negative: false, turn: 0 },
        StripTransform { strip: 1, negative: false, turn: 1 },
        StripTransform { strip: 2, negative: false, turn: 2 },
    ];
    assert_eq!(plan, expected);
}
