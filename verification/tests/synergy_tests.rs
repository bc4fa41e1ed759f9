use aram_brawl::model::{Augment, Stage, Synergy};
use aram_brawl::panel::{accumulated_synergies_panel, advanced_synergies_have_stages, synergy_status_lines};
use aram_brawl::synergy::{
    current_stage, is_transition_augment, last_threshold, synergies_for_augment, synergy_bar,
    synergy_progress,
};
use aram_brawl::text::strip_ansi;

fn aug(tier: &str, name: &str) -> Augment {
    Augment {
        tier: tier.to_string(),
        name: name.to_string(),
        description: String::new(),
        image: String::new(),
        exclusive: false,
    }
}

fn syn(name: &str, augments: &[&str], thresholds: &[usize]) -> Synergy {
    Synergy {
        name: name.to_string(),
        base: String::new(),
        augments: augments.iter().map(|s| s.to_string()).collect(),
        stages: thresholds
            .iter()
            .map(|t| Stage { threshold: *t, effect: format!("효과 {}", t) })
            .collect(),
    }
}

fn sample() -> Vec<Synergy> {
    vec![
        syn("불꽃", &["화염구", "불씨"], &[2, 3]),
        syn("얼음", &["빙결"], &[1]),
        syn("바람", &["화염구", "돌풍"], &[2, 4]),
    ]
}

#[test]
fn transition_names() {
    assert!(is_transition_augment("전환: 골드"));
    assert!(is_transition_augment("전환 : 무언가"));
    assert!(!is_transition_augment("전환골드"));
    assert!(!is_transition_augment("판도라의 상자"));
}

#[test]
fn synergies_of_an_augment_in_order() {
    let s = sample();
    assert_eq!(synergies_for_augment(&s, "화염구"), vec!["불꽃", "바람"]);
    assert_eq!(synergies_for_augment(&s, "빙결"), vec!["얼음"]);
    assert!(synergies_for_augment(&s, "없음").is_empty());
}

#[test]
fn progress_counts_picks_per_synergy() {
    let s = sample();
    let picked = vec![aug("gold", "화염구"), aug("silver", "돌풍"), aug("prism", "기타")];
    let p = synergy_progress(&s, &picked);
    assert_eq!(p.len(), 2);
    assert_eq!(p[0].0.name, "불꽃");
    assert_eq!(p[0].1, 1);
    assert_eq!(p[1].0.name, "바람");
    assert_eq!(p[1].1, 2);
}

#[test]
fn progress_law_counts_are_positive_and_bounded() {
    let s = sample();
    let picked = vec![aug("gold", "화염구"), aug("gold", "불씨"), aug("silver", "빙결")];
    for (_, c) in synergy_progress(&s, &picked) {
        assert!(c > 0 && c <= picked.len());
    }
    assert!(synergy_progress(&s, &[]).is_empty());
}

#[test]
fn current_stage_is_the_highest_reached() {
    let s = syn("x", &[], &[2, 3, 5]);
    assert!(current_stage(&s, 1).is_none());
    assert_eq!(current_stage(&s, 2).unwrap().threshold, 2);
    assert_eq!(current_stage(&s, 4).unwrap().threshold, 3);
    assert_eq!(current_stage(&s, 9).unwrap().threshold, 5);
    assert_eq!(last_threshold(&s), 5);
    assert_eq!(last_threshold(&syn("e", &[], &[])), 0);
}

#[test]
fn synergy_bar_cells() {
    let s = syn("x", &[], &[2, 4]);
    assert_eq!(synergy_bar(&s, 1), "█░░░");
    assert_eq!(synergy_bar(&s, 7), "████");
    assert_eq!(synergy_bar(&s, 0), "░░░░");
    assert_eq!(synergy_bar(&syn("e", &[], &[]), 3), "");
}

#[test]
fn panel_without_synergies() {
    let s = sample();
    let lines = accumulated_synergies_panel(&s, &[]).unwrap();
    assert_eq!(lines.len(), 3);
    assert!(strip_ansi(&lines[0]).starts_with("╭"));
    assert!(strip_ansi(&lines[0]).contains(" 누적 시너지 "));
    assert!(strip_ansi(&lines[1]).contains("아직 누적된 시너지 없음"));
    assert_eq!(strip_ansi(&lines[2]), format!("╰{}╯", "─".repeat(100)));
}

#[test]
fn panel_rows_show_progress_and_status() {
    let s = sample();
    let picked = vec![aug("gold", "화염구"), aug("gold", "불씨")];
    let lines = accumulated_synergies_panel(&s, &picked).unwrap();
    assert_eq!(lines.len(), 4);
    let fire = strip_ansi(&lines[1]);
    assert!(fire.contains("◆ 불꽃"));
    assert!(fire.contains("██░"));
    assert!(fire.contains("(2/3)"));
    assert!(fire.contains("✓ 2단계 활성"));
    let wind = strip_ansi(&lines[2]);
    assert!(wind.contains("(1/4)"));
    assert!(wind.contains("다음 1개 필요"));
    assert!(fire.starts_with("│") && fire.ends_with("│"));
}

#[test]
fn status_lines() {
    let s = sample();
    assert!(synergy_status_lines(&s, &[]).is_empty());
    let picked = vec![aug("silver", "빙결"), aug("gold", "돌풍")];
    let lines = synergy_status_lines(&s, &picked);
    assert_eq!(lines.len(), 4);
    assert_eq!(lines[0], "");
    assert_eq!(strip_ansi(&lines[1]), "    ━━━ 시너지 진행 ━━━");
    assert_eq!(strip_ansi(&lines[2]), "    ◆ 얼음  (1/1)  ✓ 1단계 활성");
    assert_eq!(strip_ansi(&lines[3]), "    ◆ 바람  (1/4)  다음 1개");
}

#[test]
fn stage_check_for_advanced_synergies() {
    let s = vec![syn("빈", &["a"], &[])];
    assert!(advanced_synergies_have_stages(&s, &[]));
    assert!(!advanced_synergies_have_stages(&s, &[aug("gold", "a")]));
    assert!(advanced_synergies_have_stages(&sample(), &[aug("gold", "화염구")]));
}

#[test]
fn progress_ignores_the_order_of_picks() {
    let s = sample();
    let a = vec![aug("gold", "화염구"), aug("silver", "돌풍"), aug("prism", "기타")];
    let b = vec![aug("prism", "기타"), aug("gold", "화염구"), aug("silver", "돌풍")];
    let pa: Vec<(String, usize)> = synergy_progress(&s, &a).iter().map(|(x, c)| (x.name.clone(), *c)).collect();
    let pb: Vec<(String, usize)> = synergy_progress(&s, &b).iter().map(|(x, c)| (x.name.clone(), *c)).collect();
    assert_eq!(pa, pb);
}
