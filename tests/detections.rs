use request_smuggler::detections::{
    first_hit, is_baseline_viable, is_victim_hit, race_baselines, split_attack_types, victim_signs,
    RaceAction,
    RaceScan,
    TimingAction, TimingScan, PATH_MARKER, SMUGGLED_METHOD, VICTIMS, WRONG_METHOD,
};
use request_smuggler::structs::{AttackType, Headers, Response};

/// Runs a timing scan against a transport that answers a probe after
/// `bad(attack, payload, round)` ms and an honest request after
/// `correct(...)` ms; returns the findings and the number of requests.
fn run_timing(
    attacks: Vec<AttackType>,
    payloads: usize,
    verify: usize,
    bad: impl Fn(AttackType, usize, usize) -> Option<u128>,
    correct: impl Fn(AttackType, usize, usize) -> Option<u128>,
) -> (Vec<TimingAction>, usize) {
    let mut scan = TimingScan::new(attacks, payloads, verify);
    let mut found = Vec::new();
    let mut sent = 0;
    loop {
        match scan.action {
            TimingAction::SendBad { attack, payload } => {
                sent += 1;
                let r = scan.round;
                scan.on_bad(bad(attack, payload, r));
            }
            TimingAction::SendCorrect { attack, payload } => {
                sent += 1;
                let r = scan.round;
                scan.on_correct(correct(attack, payload, r));
            }
            TimingAction::Found { .. } => {
                found.push(scan.action);
                break;
            }
            TimingAction::Finished => break,
        }
    }
    (found, sent)
}

fn resp(code: u16, body: &str) -> Response {
    Response { time: 10, code, http_version: String::from("HTTP/1.1"), headers: Headers::new(), body: String::from(body) }
}

#[test]
fn timing_rejects_a_slow_target() {
    let (found, sent) = run_timing(
        vec![AttackType::ClTeTime, AttackType::TeClTime],
        3,
        2,
        |_, _, _| Some(6000),
        |_, _, _| Some(6000),
    );
    assert!(found.is_empty());
    assert_eq!(sent, 4);
}

#[test]
fn timing_confirms_a_delay_once() {
    let (found, sent) = run_timing(
        vec![AttackType::ClTeTime, AttackType::TeClTime],
        3,
        2,
        |a, p, _| if a == AttackType::ClTeTime && p == 1 { Some(5000) } else { Some(120) },
        |_, _, r| Some(400 + r as u128 * 100),
    );
    assert_eq!(
        found,
        vec![TimingAction::Found { attack: AttackType::ClTeTime, payload: 1, bad_time: 5000, correct_time: 600 }]
    );
    assert_eq!(sent, 1 + 6);
}

#[test]
fn timing_moves_on_after_fast_or_failed_probes() {
    let (found, sent) = run_timing(vec![AttackType::TeClTime], 4, 1, |_, p, _| if p == 0 { None } else { Some(4999) }, |_, _, _| Some(0));
    assert!(found.is_empty());
    assert_eq!(sent, 4);
}

#[test]
fn timing_needs_every_round_slow() {
    let (found, _) = run_timing(
        vec![AttackType::ClTeTime],
        1,
        2,
        |_, _, r| if r == 2 { Some(100) } else { Some(8000) },
        |_, _, _| Some(10),
    );
    assert!(found.is_empty());
    let (none, sent) = run_timing(vec![], 5, 2, |_, _, _| Some(9000), |_, _, _| Some(1));
    assert!(none.is_empty());
    assert_eq!(sent, 0);
}

#[test]
fn baselines_need_a_visible_difference() {
    let usual = resp(200, "ok");
    assert!(is_baseline_viable(&usual, &resp(405, "no"), WRONG_METHOD));
    assert!(is_baseline_viable(&usual, &resp(200, "unknown GPOST"), WRONG_METHOD));
    assert!(!is_baseline_viable(&usual, &resp(200, "ok"), WRONG_METHOD));
    assert!(is_baseline_viable(&usual, &resp(200, "/so404mething missing"), PATH_MARKER));
    assert!(is_victim_hit(&resp(200, "GGET not allowed"), SMUGGLED_METHOD, 405));
    assert!(is_victim_hit(&resp(405, ""), SMUGGLED_METHOD, 405));
    assert!(!is_victim_hit(&resp(200, "GET"), SMUGGLED_METHOD, 405));
}

#[test]
fn race_reports_one_victim_only() {
    let victims = vec![
        Some(resp(200, "ok")),
        None,
        Some(resp(200, "method GGET unknown")),
        Some(resp(405, "GGET")),
        Some(resp(200, "ok")),
    ];
    assert_eq!(victims.len(), VICTIMS);
    assert_eq!(first_hit(&victims, SMUGGLED_METHOD, 405), Some(2));
    let quiet = vec![Some(resp(200, "ok")), None];
    assert_eq!(first_hit(&quiet, SMUGGLED_METHOD, 405), None);
}

#[test]
fn race_scan_finds_once() {
    let attacks = vec![AttackType::ClTeMethod, AttackType::ClTeTime, AttackType::TeClPath];
    let mut scan = RaceScan::new(&attacks, 2, 2, true, true);
    let mut findings = Vec::new();
    let mut attackers = Vec::new();
    let mut volleys = 0;
    loop {
        match scan.action {
            RaceAction::SendAttacker { attack, payload } => {
                attackers.push((attack, payload));
                scan.on_attacker(true);
            }
            RaceAction::SendVictims { attack, payload } => {
                volleys += 1;
                let victims: Vec<Option<Response>> = (0..VICTIMS)
                    .map(|i| {
                        if attack == AttackType::TeClPath && payload == 1 && i == 3 {
                            Some(resp(404, "so404mething"))
                        } else {
                            Some(resp(200, "ok"))
                        }
                    })
                    .collect();
                scan.on_victims(first_hit(&victims, PATH_MARKER, 404));
            }
            RaceAction::Found { .. } => {
                findings.push(scan.action);
                break;
            }
            RaceAction::Finished => break,
        }
    }
    assert_eq!(
        findings,
        vec![RaceAction::Found { attack: AttackType::TeClPath, payload: 1, victim: 3 }]
    );
    assert_eq!(
        attackers,
        vec![
            (AttackType::ClTeMethod, 0),
            (AttackType::ClTeMethod, 0),
            (AttackType::ClTeMethod, 1),
            (AttackType::ClTeMethod, 1),
            (AttackType::TeClPath, 0),
            (AttackType::TeClPath, 1),
        ]
    );
    assert_eq!(volleys, 6);
}

#[test]
fn race_scan_skips_unusable_baselines_and_failed_attackers() {
    let attacks = vec![AttackType::ClTeMethod, AttackType::TeClPath];
    let mut scan = RaceScan::new(&attacks, 3, 2, false, true);
    let mut tried = 0;
    while let RaceAction::SendAttacker { attack, .. } = scan.action {
        assert_eq!(attack, AttackType::TeClPath);
        tried += 1;
        scan.on_attacker(false);
    }
    assert_eq!(tried, 3);
    assert_eq!(scan.action, RaceAction::Finished);
    let none = RaceScan::new(&attacks, 3, 0, true, false);
    assert_eq!(none.action, RaceAction::Finished);
}

#[test]
fn timing_variants_go_first_cl_te_leading() {
    let (time, other) = split_attack_types(&vec![
        AttackType::TeClTime,
        AttackType::ClTePath,
        AttackType::ClTeTime,
        AttackType::TeClMethod,
    ]);
    assert_eq!(time, vec![AttackType::ClTeTime, AttackType::TeClTime]);
    assert_eq!(other, vec![AttackType::ClTePath, AttackType::TeClMethod]);
}

#[test]
fn victim_signs_follow_the_variant_kind() {
    assert_eq!(victim_signs(AttackType::TeClMethod, 405, 404), (SMUGGLED_METHOD, 405));
    assert_eq!(victim_signs(AttackType::ClTePath, 405, 404), (PATH_MARKER, 404));
}

#[test]
fn false_positive_is_more_than_half_the_probe() {
    let mut scan = TimingScan::new(vec![AttackType::ClTeTime], 1, 0);
    scan.on_bad(Some(6000));
    assert!(scan.is_false_positive(3001));
    assert!(!scan.is_false_positive(3000));
}

#[test]
fn baselines_decide_which_detections_run() {
    let usual = Some(resp(200, "ok"));
    assert_eq!(race_baselines(&None, &Some(resp(405, "")), &Some(resp(404, ""))), None);
    assert_eq!(race_baselines(&usual, &Some(resp(405, "")), &Some(resp(404, ""))), Some((true, true)));
    assert_eq!(race_baselines(&usual, &None, &Some(resp(200, "ok"))), Some((false, false)));
    assert_eq!(race_baselines(&usual, &Some(resp(200, "no GPOST")), &None), Some((true, false)));
}

#[test]
fn scans_start_at_the_first_variant() {
    let scan = TimingScan::new(vec![AttackType::ClTeTime, AttackType::ClTeTime], 2, 1);
    assert_eq!((scan.attack, scan.payload, scan.round), (0, 0, 0));
    let race = RaceScan::new(&vec![AttackType::ClTeMethod], 2, 1, true, false);
    assert_eq!((race.entry, race.payload, race.round), (0, 0, 0));
}
