use aram_brawl::draw::{
    eligible_indices, handle_special, pick_random_of_tier, picked_names, random_tier, tier_for_roll,
    NameSet,
};
use aram_brawl::game::{
    champion_intro_lines, chosen_line, commit_pick, deal_slots, final_summary_lines, header_lines,
    notice, pick_champion, reroll_feedback, reroll_slot, round_header, round_step, take_slot,
    RerollOutcome, RoundAction, short_table_notice, LEVELS,
};
use aram_brawl::model::{Augment, Champion, Stage, Synergy};
use aram_brawl::text::strip_ansi;
use std::collections::HashSet;

fn aug(tier: &str, name: &str) -> Augment {
    Augment {
        tier: tier.to_string(),
        name: name.to_string(),
        description: format!("{} 설명", name),
        image: String::new(),
        exclusive: false,
    }
}

fn pool() -> Vec<Augment> {
    vec![
        aug("silver", "s1"),
        aug("silver", "s2"),
        aug("silver", "s3"),
        aug("silver", "s4"),
        aug("gold", "g1"),
        aug("gold", "g2"),
        aug("gold", "전환: 골드"),
        aug("prism", "p1"),
        aug("prism", "p2"),
        aug("prism", "p3"),
        aug("prism", "판도라의 상자"),
        aug("silver", "전환: 혼돈"),
        aug("silver", "전환: 프리즘"),
    ]
}

fn names(v: &[Augment]) -> Vec<String> {
    v.iter().map(|a| a.name.clone()).collect()
}

fn set_of(items: &[&str]) -> NameSet {
    let mut s = NameSet::new();
    for i in items {
        s.insert(i);
    }
    s
}

#[test]
fn name_set_behaves_as_a_set() {
    let mut s = NameSet::new();
    assert!(!s.contains("a"));
    s.insert("a");
    s.insert("a");
    assert!(s.contains("a"));
    assert_eq!(s.names.len(), 1);
    let p = picked_names(&vec![aug("gold", "x"), aug("gold", "y")]);
    assert!(p.contains("x") && p.contains("y") && !p.contains("z"));
}

#[test]
fn roll_to_tier_boundaries() {
    assert_eq!(tier_for_roll(0), "silver");
    assert_eq!(tier_for_roll(49), "silver");
    assert_eq!(tier_for_roll(50), "gold");
    assert_eq!(tier_for_roll(84), "gold");
    assert_eq!(tier_for_roll(85), "prism");
    assert_eq!(tier_for_roll(99), "prism");
    let mut rng = rand::thread_rng();
    for _ in 0..50 {
        assert!(["silver", "gold", "prism"].contains(&random_tier(&mut rng)));
    }
}

#[test]
fn eligible_augments_exclude_shown_excluded_and_special() {
    let augs = pool();
    let seen = set_of(&["g1"]);
    let excluded = NameSet::new();
    assert_eq!(eligible_indices("gold", &augs, &seen, &excluded), vec![5]);
    assert_eq!(eligible_indices("silver", &augs, &NameSet::new(), &set_of(&["s2"])), vec![0, 2, 3]);
    assert_eq!(eligible_indices("prism", &augs, &NameSet::new(), &NameSet::new()), vec![7, 8, 9]);
}

#[test]
fn random_pick_is_eligible_or_none() {
    let augs = pool();
    let mut rng = rand::thread_rng();
    for _ in 0..20 {
        let a = pick_random_of_tier("prism", &augs, &set_of(&["p1"]), &set_of(&["p2"]), &mut rng).unwrap();
        assert_eq!(a.name, "p3");
    }
    assert!(pick_random_of_tier("gold", &augs, &set_of(&["g1", "g2"]), &NameSet::new(), &mut rng).is_none());
}

#[test]
fn gold_transition_draws_one_gold() {
    let augs = pool();
    let mut rng = rand::thread_rng();
    let t = aug("gold", "전환: 골드");
    let mut picked = vec![aug("silver", "s1")];
    let mut seen = set_of(&["s1", "전환: 골드"]);
    let (handled, msgs) = handle_special(&t, &mut picked, &mut seen, &augs, &mut rng);
    assert!(handled);
    assert_eq!(picked.len(), 3);
    assert_eq!(picked[1].name, "전환: 골드");
    assert_eq!(picked[2].tier, "gold");
    assert!(["g1", "g2"].contains(&picked[2].name.as_str()));
    assert!(seen.contains(&picked[2].name));
    assert_eq!(msgs.len(), 1);
    assert_eq!(
        strip_ansi(&msgs[0]),
        format!("\n    ✦ '전환: 골드' 발동 → 무작위 골드: {}", picked[2].name)
    );
}

#[test]
fn transition_without_candidates_adds_only_itself() {
    let augs = pool();
    let mut rng = rand::thread_rng();
    let t = aug("silver", "전환: 프리즘");
    let mut picked = vec![];
    let mut seen = set_of(&["p1", "p2", "p3"]);
    let (handled, msgs) = handle_special(&t, &mut picked, &mut seen, &augs, &mut rng);
    assert!(handled);
    assert_eq!(names(&picked), vec!["전환: 프리즘"]);
    assert!(msgs.is_empty());
    assert!(seen.contains("전환: 프리즘"));
}

#[test]
fn chaos_transition_draws_up_to_two() {
    let augs = pool();
    let mut rng = rand::thread_rng();
    for _ in 0..20 {
        let t = aug("silver", "전환: 혼돈");
        let mut picked = vec![];
        let mut seen = NameSet::new();
        let (handled, msgs) = handle_special(&t, &mut picked, &mut seen, &augs, &mut rng);
        assert!(handled);
        assert!(picked.len() >= 1 && picked.len() <= 3);
        assert_eq!(picked[0].name, "전환: 혼돈");
        assert_eq!(msgs.len(), picked.len());
        assert_eq!(strip_ansi(&msgs[0]), "\n    ✦ '전환: 혼돈' 발동 → 무작위 증강 2개 획득");
        let unique: HashSet<String> = names(&picked).into_iter().collect();
        assert_eq!(unique.len(), picked.len());
        for a in &picked[1..] {
            assert!(!a.name.starts_with("전환") && a.name != "판도라의 상자");
        }
    }
}

#[test]
fn pandora_turns_picks_into_prisms() {
    let augs = pool();
    let mut rng = rand::thread_rng();
    let b = aug("prism", "판도라의 상자");
    let mut picked = vec![aug("silver", "s1"), aug("gold", "g1")];
    let mut seen = set_of(&["s1", "g1", "판도라의 상자"]);
    let (handled, msgs) = handle_special(&b, &mut picked, &mut seen, &augs, &mut rng);
    assert!(handled);
    assert_eq!(picked.len(), 3);
    assert_eq!(picked[2].name, "판도라의 상자");
    assert!(picked[..2].iter().all(|a| a.tier == "prism"));
    assert_ne!(picked[0].name, picked[1].name);
    assert_eq!(msgs.len(), 3);
    assert_eq!(
        strip_ansi(&msgs[0]),
        "\n    ✦ '판도라의 상자' 발동 → 기존 2개 증강이 무작위 프리즘으로 전환!"
    );
    assert!(seen.contains("s1") && seen.contains("g1"));
}

#[test]
fn pandora_with_too_few_prisms() {
    let augs = pool();
    let mut rng = rand::thread_rng();
    let b = aug("prism", "판도라의 상자");
    let mut picked = vec![aug("silver", "s1"), aug("silver", "s2"), aug("gold", "g1")];
    let mut seen = set_of(&["p1", "p2"]);
    let (_, msgs) = handle_special(&b, &mut picked, &mut seen, &augs, &mut rng);
    assert_eq!(names(&picked), vec!["p3", "판도라의 상자"]);
    assert_eq!(msgs.len(), 2);
}

#[test]
fn ordinary_augment_is_not_special() {
    let augs = pool();
    let mut rng = rand::thread_rng();
    let mut picked = vec![aug("gold", "g1")];
    let mut seen = set_of(&["g1"]);
    let (handled, msgs) = handle_special(&aug("gold", "g2"), &mut picked, &mut seen, &augs, &mut rng);
    assert!(!handled);
    assert!(msgs.is_empty());
    assert_eq!(names(&picked), vec!["g1"]);
    assert!(!seen.contains("g2"));
}

#[test]
fn dealing_and_rerolling_a_round() {
    let augs = pool();
    let mut rng = rand::thread_rng();
    let seen = set_of(&["s4"]);
    let mut slots = deal_slots("silver", &augs, &seen, &mut rng);
    assert_eq!(slots.len(), 3);
    let dealt: HashSet<String> = names(&slots).into_iter().collect();
    assert_eq!(dealt.len(), 3);
    assert!(slots.iter().all(|a| a.tier == "silver" && a.name != "s4"));

    let mut seen = seen;
    let mut used = vec![false, false, false];
    let before = slots.clone();
    let r = reroll_slot(2, "silver", &mut slots, &mut used, &mut seen, &augs, &mut rng);
    assert!(seen.contains(&before[1].name));
    match r {
        RerollOutcome::Replaced => {
            assert!(used[1]);
            assert_eq!(slots[0].name, before[0].name);
            assert_eq!(slots[2].name, before[2].name);
            assert_ne!(slots[1].name, before[1].name);
            assert_eq!(slots[1].tier, "silver");
            let again = reroll_slot(2, "silver", &mut slots, &mut used, &mut seen, &augs, &mut rng);
            assert_eq!(again, RerollOutcome::AlreadyUsed);
        }
        RerollOutcome::PoolEmpty => assert!(!used[1]),
        RerollOutcome::AlreadyUsed => panic!("first reroll of a slot"),
    }
}

#[test]
fn reroll_with_empty_pool() {
    let augs = vec![aug("gold", "a"), aug("gold", "b")];
    let mut rng = rand::thread_rng();
    let mut slots = augs.clone();
    let mut used = vec![false, false];
    let mut seen = NameSet::new();
    let r = reroll_slot(1, "gold", &mut slots, &mut used, &mut seen, &augs, &mut rng);
    assert_eq!(r, RerollOutcome::PoolEmpty);
    assert!(seen.contains("a"));
    assert_eq!(names(&slots), vec!["a", "b"]);
    assert_eq!(used, vec![false, false]);
}

#[test]
fn small_pool_deals_fewer() {
    let augs = pool();
    let mut rng = rand::thread_rng();
    let slots = deal_slots("gold", &augs, &set_of(&["g1"]), &mut rng);
    assert_eq!(slots.len(), 2);
    assert!(deal_slots("none", &augs, &NameSet::new(), &mut rng).is_empty());
}

#[test]
fn taking_and_committing_a_pick() {
    let augs = pool();
    let mut rng = rand::thread_rng();
    let slots = vec![aug("gold", "g1"), aug("gold", "g2"), aug("gold", "전환: 골드")];
    let mut seen = NameSet::new();
    let chosen = take_slot(2, &slots, &mut seen);
    assert_eq!(chosen.name, "g2");
    assert!(seen.contains("g1") && seen.contains("g2") && seen.contains("전환: 골드"));
    let mut picked = vec![];
    let msgs = commit_pick(&chosen, &mut picked, &mut seen, &augs, &mut rng);
    assert!(msgs.is_empty());
    assert_eq!(names(&picked), vec!["g2"]);
    let special = take_slot(3, &slots, &mut seen);
    let _ = commit_pick(&special, &mut picked, &mut seen, &augs, &mut rng);
    assert_eq!(names(&picked), vec!["g2", "전환: 골드"]);
}

#[test]
fn pick_law_no_augment_is_picked_twice() {
    let augs = pool();
    let mut rng = rand::thread_rng();
    for _ in 0..20 {
        let mut seen = NameSet::new();
        let mut picked: Vec<Augment> = vec![];
        for tier in ["silver", "gold", "prism", "silver"] {
            let slots = deal_slots(tier, &augs, &seen, &mut rng);
            if slots.is_empty() {
                break;
            }
            let chosen = take_slot(1, &slots, &mut seen);
            let _ = commit_pick(&chosen, &mut picked, &mut seen, &augs, &mut rng);
            let unique: HashSet<String> = names(&picked).into_iter().collect();
            assert_eq!(unique.len(), picked.len());
            assert!(picked.iter().all(|a| seen.contains(&a.name)));
        }
    }
}

#[test]
fn headers_and_lines() {
    let h = header_lines("최종 빌드").unwrap();
    assert_eq!(h.len(), 3);
    assert_eq!(strip_ansi(&h[0]), format!("╔{}╗", "═".repeat(64)));
    assert_eq!(strip_ansi(&h[1]), format!("║{}최종 빌드{}║", " ".repeat(27), " ".repeat(28)));
    assert!(header_lines(&"x".repeat(65)).is_none());
    assert!(header_lines(&"x".repeat(64)).is_some());
    assert_eq!(
        strip_ansi(&round_header(0, LEVELS[0], "gold")),
        "    ━━━ 라운드 1/4   레벨 3   ::  골드 증강 ━━━"
    );
    assert_eq!(strip_ansi(&chosen_line(&aug("prism", "p1"))), "\n    → [프리즘] p1 선택!");
    assert_eq!(strip_ansi(&notice("abc")), "    abc");
    assert!(reroll_feedback(RerollOutcome::Replaced).is_none());
    assert_eq!(strip_ansi(&reroll_feedback(RerollOutcome::AlreadyUsed).unwrap()), "    이미 리롤한 슬롯입니다.");
    assert_eq!(strip_ansi(&reroll_feedback(RerollOutcome::PoolEmpty).unwrap()), "    이 등급의 풀이 비었습니다.");
}

#[test]
fn champion_and_final_build() {
    let champs = vec![Champion { name: "아리".to_string(), title: "구미호".to_string() }];
    let mut rng = rand::thread_rng();
    let c = pick_champion(&champs, &mut rng).unwrap();
    assert_eq!(c.name, "아리");
    assert!(pick_champion(&[], &mut rng).is_none());
    let intro = champion_intro_lines(c);
    assert_eq!(intro.len(), 3);
    assert_eq!(strip_ansi(&intro[1]), "    ▸ 챔피언:  아리");

    let synergies = vec![Synergy {
        name: "불꽃".to_string(),
        base: String::new(),
        augments: vec!["g1".to_string(), "g2".to_string()],
        stages: vec![Stage { threshold: 2, effect: "불이 붙습니다".to_string() }],
    }];
    let picked = vec![aug("gold", "g1")];
    let lines = final_summary_lines(c, &picked, &synergies);
    let plain: Vec<String> = lines.iter().map(|l| strip_ansi(l)).collect();
    assert_eq!(plain[0], "");
    assert_eq!(plain[1], "    챔피언:  아리");
    assert_eq!(plain[4], "    증강:");
    assert_eq!(plain[5], "      1. [골드]  g1");
    assert_eq!(plain[6], "         g1 설명");
    assert_eq!(plain[8], "    시너지:");
    assert_eq!(plain[9], "      ◇ 불꽃 (1/2, 미활성)");
    assert_eq!(plain.last().unwrap(), "");

    let both = vec![aug("gold", "g1"), aug("gold", "g2")];
    let lines = final_summary_lines(c, &both, &synergies);
    let plain: Vec<String> = lines.iter().map(|l| strip_ansi(l)).collect();
    assert!(plain.contains(&"      ◆ 불꽃  (2/2, 2단계 활성)".to_string()));
    assert!(plain.contains(&"         불이 붙습니다".to_string()));
}

#[test]
fn round_step_quit_and_refusal_change_nothing() {
    let augs = pool();
    let mut rng = rand::thread_rng();
    let mut slots = vec![aug("silver", "s1"), aug("silver", "s2"), aug("silver", "s3")];
    let mut used = vec![false, false, false];
    let mut seen = NameSet::new();
    match round_step("q", "silver", &mut slots, &mut used, &mut seen, &augs, &mut rng) {
        RoundAction::Quit(t) => assert_eq!(t, "\n    종료합니다."),
        _ => panic!("q quits"),
    }
    match round_step("x", "silver", &mut slots, &mut used, &mut seen, &augs, &mut rng) {
        RoundAction::Refused(t) => assert_eq!(t, notice("잘못된 입력. 예: 1, 2, 3, r1, r2, r3, q")),
        _ => panic!("x asks for nothing"),
    }
    match round_step("4", "silver", &mut slots, &mut used, &mut seen, &augs, &mut rng) {
        RoundAction::Refused(_) => {}
        _ => panic!("there is no fourth slot"),
    }
    assert_eq!(names(&slots), vec!["s1", "s2", "s3"]);
    assert_eq!(used, vec![false, false, false]);
    assert!(!seen.contains("s1"));
}

#[test]
fn round_step_pick_marks_the_table() {
    let augs = pool();
    let mut rng = rand::thread_rng();
    let mut slots = vec![aug("silver", "s1"), aug("silver", "s2"), aug("silver", "s3")];
    let mut used = vec![false, false, false];
    let mut seen = NameSet::new();
    match round_step("2", "silver", &mut slots, &mut used, &mut seen, &augs, &mut rng) {
        RoundAction::Chosen(a) => assert_eq!(a.name, "s2"),
        _ => panic!("2 picks"),
    }
    assert!(seen.contains("s1") && seen.contains("s2") && seen.contains("s3"));
    assert_eq!(names(&slots), vec!["s1", "s2", "s3"]);
}

#[test]
fn round_step_reroll_once_per_slot() {
    let augs = pool();
    let mut rng = rand::thread_rng();
    let mut slots = vec![aug("silver", "s1"), aug("silver", "s2"), aug("silver", "s3")];
    let mut used = vec![false, false, false];
    let mut seen = NameSet::new();
    match round_step("r3", "silver", &mut slots, &mut used, &mut seen, &augs, &mut rng) {
        RoundAction::Rerolled(RerollOutcome::Replaced, line) => {
            assert!(line.is_none());
            assert!(used[2]);
            assert_ne!(slots[2].name, "s3");
        }
        _ => panic!("slot 3 can be replaced"),
    }
    match round_step("r3", "silver", &mut slots, &mut used, &mut seen, &augs, &mut rng) {
        RoundAction::Rerolled(RerollOutcome::AlreadyUsed, line) => {
            assert_eq!(line, Some(notice("이미 리롤한 슬롯입니다.")));
        }
        _ => panic!("slot 3 was rerolled already"),
    }
}

#[test]
fn short_table_ends_the_game() {
    let two = vec![aug("gold", "g1"), aug("gold", "g2")];
    assert_eq!(short_table_notice(&two), Some(notice("이 등급에 남은 증강이 부족합니다. 게임 종료.")));
    let three = vec![aug("gold", "g1"), aug("gold", "g2"), aug("gold", "g3")];
    assert_eq!(short_table_notice(&three), None);
}
