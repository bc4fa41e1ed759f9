use aram_brawl::card::{build_card, card_blank, card_row, normalize_card_heights, render_three_cards, stack_cards_horizontally};
use aram_brawl::model::{Augment, Stage, Synergy};
use aram_brawl::style::{borders_for, icon_for, tier_color, tier_label, RESET};
use aram_brawl::text::{strip_ansi, vw};

fn aug(tier: &str, name: &str, description: &str) -> Augment {
    Augment {
        tier: tier.to_string(),
        name: name.to_string(),
        description: description.to_string(),
        image: String::new(),
        exclusive: false,
    }
}

fn syn(name: &str, augments: &[&str]) -> Synergy {
    Synergy {
        name: name.to_string(),
        base: String::new(),
        augments: augments.iter().map(|s| s.to_string()).collect(),
        stages: vec![Stage { threshold: 2, effect: String::new() }],
    }
}

#[test]
fn tier_styles() {
    assert_eq!(borders_for("gold").tl, "┏");
    assert_eq!(borders_for("prism").v, "║");
    assert_eq!(borders_for("silver").h, "─");
    assert_eq!(borders_for("unknown").tl, "╭");
    assert_eq!(tier_label("gold"), "골드");
    assert_eq!(tier_label("mystery"), "?");
    assert_eq!(tier_color("prism"), "\x1b[38;2;230;130;230m");
    assert_eq!(tier_color("mystery"), "");
    assert_eq!(icon_for("prism")[0], "     ▄▟▙▄▟▙▄    ");
    assert_eq!(icon_for("other")[1], "    ▟██████▙    ");
}

#[test]
fn blank_and_row() {
    let bd = borders_for("gold");
    let tc = tier_color("gold");
    let blank = card_blank(&bd, tc, 4);
    assert_eq!(blank, format!("{}┃{}    {}┃{}", tc, RESET, tc, RESET));
    let row = card_row(&bd, tc, 4, "ab");
    assert_eq!(row, format!("{}┃{}ab  {}┃{}", tc, RESET, tc, RESET));
}

#[test]
fn card_layout() {
    let a = aug("gold", "화염구", "적에게 불덩이를 던집니다.");
    let card = build_card(2, &a, false, &[]);
    let plain: Vec<String> = card.iter().map(|l| strip_ansi(l)).collect();
    assert_eq!(plain[0].trim(), "[ 2 ]");
    assert_eq!(plain[1], format!("┏{}┓", "━".repeat(30)));
    assert!(plain[8].contains("─ 골드 ─"));
    assert_eq!(plain[10], format!("┠{}┨", "━".repeat(30)));
    assert!(plain[12].contains("화염구"));
    assert!(plain.iter().any(|l| l.contains("적에게 불덩이를 던집니다.")));
    assert_eq!(plain[plain.len() - 2], format!("┗{}┛", "━".repeat(30)));
    assert_eq!(plain[plain.len() - 1].trim(), "╭─ r2: 리롤 ─╮");
    for l in &card {
        assert_eq!(vw(l), 32);
    }
    // Label, frame, blank, icon (4), blank, tier, blank, divider, blank,
    // one name row, blank, divider, blank, one description row, blank,
    // bottom frame, button.
    assert_eq!(card.len(), 20);
}

#[test]
fn card_used_reroll_and_synergy() {
    let a = aug("silver", "전환: 골드", "d");
    let s = vec![syn("변신", &["전환: 골드"]), syn("행운", &["전환: 골드"])];
    let card = build_card(1, &a, true, &s);
    let plain: Vec<String> = card.iter().map(|l| strip_ansi(l)).collect();
    assert_eq!(plain[plain.len() - 1].trim(), "╰─ 리롤 사용 ─╯");
    assert!(plain.iter().any(|l| l.contains("◆ 시너지: 전환 : 변신,")));
    let tagged = card.iter().find(|l| l.contains("시너지")).unwrap();
    assert!(tagged.contains("\x1b[38;2;120;200;230m전환 : "));
}

#[test]
fn heights_are_evened_out() {
    let short = aug("silver", "a", "b");
    let long = aug("prism", "b", "a long description that wraps onto several lines of the card body");
    let slots = vec![short.clone(), long.clone()];
    let mut cards = vec![build_card(1, &short, false, &[]), build_card(2, &long, false, &[])];
    let before_short = cards[0].clone();
    let tall = cards[1].len();
    normalize_card_heights(&mut cards, &slots);
    assert_eq!(cards[0].len(), tall);
    assert_eq!(cards[1].len(), tall);
    let n = before_short.len();
    assert_eq!(cards[0][..n - 2], before_short[..n - 2]);
    assert_eq!(cards[0][tall - 2..], before_short[n - 2..]);
    let bd = borders_for("silver");
    assert_eq!(cards[0][n - 2], card_blank(&bd, tier_color("silver"), 30));
}

#[test]
fn stacking_pads_each_card() {
    let cards = vec![vec!["a".to_string(), "b".to_string()], vec!["c".to_string()]];
    let rows = stack_cards_horizontally(cards);
    assert_eq!(rows.len(), 2);
    assert_eq!(rows[0], format!("a{}   c{}", " ".repeat(31), " ".repeat(31)));
    assert_eq!(rows[1], format!("b{}   {}", " ".repeat(31), " ".repeat(32)));
    assert!(stack_cards_horizontally(vec![]).is_empty());
}

#[test]
fn three_cards_render_side_by_side() {
    let slots = vec![aug("gold", "x", "short"), aug("gold", "y", "a rather longer description text here"), aug("gold", "z", "")];
    let rows = render_three_cards(&slots, &[false, true, false], &[]);
    for r in &rows {
        assert_eq!(vw(r), 32 * 3 + 3 * 2);
    }
    assert!(strip_ansi(&rows[0]).contains("[ 1 ]"));
    assert!(strip_ansi(rows.last().unwrap()).contains("리롤 사용"));
}
