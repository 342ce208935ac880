use nockpool_miner::entropy::NoEntropy;
use nockpool_miner::hexadecimal::HexError;
use nockpool_miner::miner::{
    benchmark_template, fresh_nonce, judge, mining_threads, nonce_from, nonce_if_filled,
    template_from_hex, Draft, JoinAction, Joined, KernelNotLoaded, Miner, Setback, Skipped, Target, Template, TemplateAction, TemplateField,
    Verdict, BENCHMARK_ID, PRIME,
};
use nockpool_miner::noun::Noun;

fn show(n: &Noun) -> String {
    match n {
        Noun::Atom(bytes) => format!("{:?}", bytes),
        Noun::Cell(head, tail) => format!("({} {})", show(head), show(tail)),
    }
}

fn text(s: &str) -> Noun {
    Noun::text(s)
}

fn number(n: u64) -> Noun {
    Noun::number(n)
}

fn cell(a: Noun, b: Noun) -> Noun {
    Noun::cell(a, b)
}

fn success(tag: Noun, digest: Noun) -> Noun {
    let message = cell(text("commit"), cell(digest, text("proof")));
    cell(cell(tag, message), number(0))
}

fn template() -> Template {
    Template {
        version: vec![2, 0],
        commit: vec![1],
        network_target: vec![3],
        pool_target: vec![4],
        pow_len: vec![64],
    }
}

#[test]
fn threads_leave_two_cores() {
    assert_eq!(mining_threads(16, None), 14);
    assert_eq!(mining_threads(4, None), 2);
    assert_eq!(mining_threads(3, None), 1);
    assert_eq!(mining_threads(2, None), 1);
    assert_eq!(mining_threads(1, None), 1);
    assert_eq!(mining_threads(0, None), 1);
}

#[test]
fn threads_keep_the_limit() {
    assert_eq!(mining_threads(16, Some(4)), 4);
    assert_eq!(mining_threads(4, Some(100)), 2);
    assert_eq!(mining_threads(16, Some(0)), 0);
}

#[test]
fn failed_attempt_is_a_setback() {
    assert!(matches!(judge(false, None), Verdict::Setback(Setback::AttemptFailed)));
}

#[test]
fn atom_result_is_a_setback() {
    assert!(matches!(
        judge(false, Some(number(1))),
        Verdict::Setback(Setback::ResultNotCell)
    ));
}

#[test]
fn poke_means_cancelled() {
    let padded = Noun::Atom(vec![b'p', b'o', b'k', b'e', 0, 0, 0, 0]);
    assert!(matches!(judge(true, Some(cell(padded, number(0)))), Verdict::Cancelled));
    assert!(matches!(
        judge(true, Some(cell(text("poked"), number(0)))),
        Verdict::Setback(Setback::EffectNotCell)
    ));
    assert!(matches!(
        judge(true, Some(cell(text("pok"), number(0)))),
        Verdict::Setback(Setback::EffectNotCell)
    ));
}

#[test]
fn miss_reports_its_nonce() {
    let result = cell(cell(text("miss"), cell(number(7), number(8))), number(0));
    match judge(false, Some(result)) {
        Verdict::Missed { nonce } => {
            assert_eq!(show(&nonce), show(&cell(number(7), number(8))));
        }
        other => panic!("{:?}", other),
    }
}

#[test]
fn unknown_target_is_a_setback() {
    let result = success(text("moon"), number(9));
    assert!(matches!(judge(false, Some(result)), Verdict::Setback(Setback::UnknownTarget)));
    let result = success(cell(text("pool"), number(0)), number(9));
    assert!(matches!(judge(false, Some(result)), Verdict::Setback(Setback::UnknownTarget)));
}

#[test]
fn pool_hit_counts_unless_network_only() {
    match judge(false, Some(success(text("pool"), Noun::Atom(vec![9, 0, 0])))) {
        Verdict::Solved(s) => {
            assert_eq!(s.target, Target::Pool);
            assert_eq!(show(&s.commit), show(&text("commit")));
            assert_eq!(s.digest, vec![9, 0, 0]);
            assert_eq!(show(&s.proof), show(&text("proof")));
        }
        other => panic!("{:?}", other),
    }
    assert!(matches!(
        judge(true, Some(success(text("pool"), number(9)))),
        Verdict::Setback(Setback::OffNetworkTarget)
    ));
}

#[test]
fn network_hit_always_counts() {
    for network_only in [false, true] {
        match judge(network_only, Some(success(text("network"), number(9)))) {
            Verdict::Solved(s) => assert_eq!(s.target, Target::Network),
            other => panic!("{:?}", other),
        }
    }
}

#[test]
fn malformed_messages_are_told_apart() {
    let short = cell(cell(text("pool"), number(1)), number(0));
    assert!(matches!(judge(false, Some(short)), Verdict::Setback(Setback::MessageNotCell)));
    let shorter = cell(cell(text("pool"), cell(number(1), number(2))), number(0));
    assert!(matches!(
        judge(false, Some(shorter)),
        Verdict::Setback(Setback::MessageTailNotCell)
    ));
    let digest = success(text("pool"), cell(number(1), number(2)));
    assert!(matches!(judge(false, Some(digest)), Verdict::DigestNotAtom));
}

#[test]
fn thread_goes_on_after_each_result() {
    let miner = Miner::new(8, None, false);
    for result in [
        None,
        Some(number(0)),
        Some(cell(text("poke"), number(0))),
        Some(cell(text("else"), number(0))),
        Some(success(text("moon"), number(0))),
    ] {
        match miner.on_join(Joined::Finished { id: 3, result }) {
            JoinAction::Mine(attempt) => {
                assert_eq!(attempt.id, 3);
                assert!(attempt.nonce.is_none());
            }
            other => panic!("{:?}", other),
        }
    }
}

#[test]
fn miss_goes_on_from_its_nonce() {
    let miner = Miner::new(8, None, false);
    let result = Some(cell(cell(text("miss"), number(5)), number(0)));
    match miner.on_join(Joined::Finished { id: 1, result }) {
        JoinAction::Mine(attempt) => {
            assert_eq!(attempt.id, 1);
            assert_eq!(show(&attempt.nonce.unwrap()), show(&number(5)));
        }
        other => panic!("{:?}", other),
    }
}

#[test]
fn solution_is_submitted_and_mining_goes_on() {
    let miner = Miner::new(8, None, true);
    let result = Some(success(text("network"), number(5)));
    match miner.on_join(Joined::Finished { id: 2, result }) {
        JoinAction::SubmitAndMine(solution, attempt) => {
            assert_eq!(solution.target, Target::Network);
            assert_eq!(attempt.id, 2);
            assert!(attempt.nonce.is_none());
        }
        other => panic!("{:?}", other),
    }
}

#[test]
fn mining_stops_on_a_digest_that_is_no_atom() {
    let miner = Miner::new(8, None, false);
    let result = Some(success(text("pool"), cell(number(1), number(2))));
    assert!(matches!(miner.on_join(Joined::Finished { id: 2, result }), JoinAction::Stop));
}

#[test]
fn lost_tasks_are_waited_out() {
    let miner = Miner::new(8, None, false);
    assert!(matches!(miner.on_join(Joined::Broken), JoinAction::Wait));
    assert!(matches!(miner.on_join(Joined::NoneRunning), JoinAction::Wait));
}

#[test]
fn new_template_starts_or_cancels() {
    let mut miner = Miner::new(8, None, false);
    match miner.on_template(template(), true) {
        TemplateAction::LoadKernels { ids } => assert_eq!(ids, vec![0, 1, 2, 3, 4, 5]),
        other => panic!("{:?}", other),
    }
    assert!(matches!(
        miner.on_template(template(), false),
        TemplateAction::CancelAttempts { .. }
    ));
    assert!(miner.template.is_some());
}

#[test]
fn loaded_kernel_gets_an_attempt() {
    let mut miner = Miner::new(8, None, false);
    assert_eq!(miner.on_kernel(4, true).unwrap().id, 4);
    assert!(miner.on_kernel(4, false).is_none());
}

#[test]
fn new_template_cancels_every_loaded_kernel() {
    let mut miner = Miner::new(8, None, false);
    miner.on_template(template(), true);
    miner.on_kernel(2, true);
    miner.on_kernel(1, false);
    miner.on_kernel(0, true);
    miner.on_template(template(), true);
    miner.on_kernel(1, true);
    match miner.on_template(template(), false) {
        TemplateAction::CancelAttempts { ids } => assert_eq!(ids, vec![2, 0, 1]),
        other => panic!("{:?}", other),
    }
    match miner.on_template(template(), false) {
        TemplateAction::CancelAttempts { ids } => assert_eq!(ids, vec![2, 0, 1]),
        other => panic!("{:?}", other),
    }
}

#[test]
fn nonce_is_read_from_little_endian_draws() {
    let mut bytes = vec![0u8; 40];
    bytes[0] = 1;
    bytes[9] = 1;
    bytes[16..24].copy_from_slice(&(PRIME + 3).to_le_bytes());
    bytes[31] = 1;
    bytes[32..40].copy_from_slice(&5u64.to_le_bytes());
    let nonce = nonce_if_filled(true, &bytes).unwrap();
    let expected = nonce_from(&[1, 256, 3, 1 << 56, 5]);
    assert_eq!(show(&nonce), show(&expected));
    assert!(nonce_if_filled(false, &bytes).is_err());
}

#[test]
fn no_entropy_no_attempt() {
    let mut miner = Miner::new(8, None, false);
    assert!(matches!(miner.draft(Err(NoEntropy)), Err(Skipped::NoTemplate)));
    miner.on_template(template(), true);
    assert!(matches!(miner.draft(Err(NoEntropy)), Err(Skipped::NoEntropy)));
    assert_eq!(show(&miner.draft(Ok(number(9))).unwrap().nonce), show(&number(9)));
}

#[test]
fn nonce_is_nested_with_the_last_draw_first() {
    let nonce = nonce_from(&[1, 2, PRIME + 3, 4, 5]);
    let expected = cell(
        number(5),
        cell(number(4), cell(number(3), cell(number(2), number(1)))),
    );
    assert_eq!(show(&nonce), show(&expected));
}

fn field_elements(n: &Noun) -> Vec<u64> {
    let value = |n: &Noun| match n {
        Noun::Atom(bytes) => {
            let mut v: u64 = 0;
            for b in bytes.iter().rev() {
                v = v * 256 + (*b as u64);
            }
            v
        }
        _ => panic!("no atom"),
    };
    match n {
        Noun::Cell(head, tail) => {
            let mut rest = field_elements(tail);
            rest.insert(0, value(head));
            rest
        }
        atom => vec![value(atom)],
    }
}

#[test]
fn fresh_nonces_are_five_field_elements() {
    let first = field_elements(&fresh_nonce().unwrap());
    let second = field_elements(&fresh_nonce().unwrap());
    assert_eq!(first.len(), 5);
    assert_eq!(second.len(), 5);
    assert!(first.iter().all(|v| *v < PRIME));
    assert_ne!(first, second);
}

#[test]
fn no_template_no_attempt() {
    let miner = Miner::new(8, None, false);
    assert!(matches!(miner.mine(None), Err(Skipped::NoTemplate)));
}

#[test]
fn attempt_is_on_the_newest_template() {
    let mut miner = Miner::new(8, None, false);
    miner.on_template(template(), true);
    let mut newer = template();
    newer.commit = vec![77];
    miner.on_template(newer, false);
    let draft = miner.mine(Some(number(6))).unwrap();
    assert_eq!(draft.commit, vec![77]);
    assert_eq!(draft.version, vec![2, 0]);
    assert_eq!(draft.network_target, vec![3]);
    assert_eq!(draft.pool_target, vec![4]);
    assert_eq!(draft.pow_len, vec![64]);
    assert_eq!(show(&draft.nonce), show(&number(6)));
    assert_eq!(field_elements(&miner.mine(None).unwrap().nonce).len(), 5);
}

fn draft() -> Draft {
    let mut miner = Miner::new(8, None, false);
    miner.on_template(template(), true);
    miner.mine(Some(number(6))).unwrap()
}

#[test]
fn candidate_holds_its_seven_parts() {
    let poke = draft()
        .finish(Some(text("c")), Some(text("n")), Some(text("p")))
        .unwrap();
    let expected = cell(
        text("template"),
        cell(
            Noun::Atom(vec![2, 0]),
            cell(
                text("c"),
                cell(
                    number(6),
                    cell(text("n"), cell(text("p"), Noun::Atom(vec![64]))),
                ),
            ),
        ),
    );
    assert_eq!(show(&poke.cause), show(&expected));
    assert_eq!(poke.wire.source, "miner");
    assert_eq!(poke.wire.version, 1);
    assert_eq!(poke.wire.tag, "candidate");
}

#[test]
fn first_undecodable_part_is_reported() {
    assert!(matches!(draft().finish(None, None, None), Err(Skipped::BadCommit)));
    assert!(matches!(
        draft().finish(Some(number(1)), None, None),
        Err(Skipped::BadNetworkTarget)
    ));
    assert!(matches!(
        draft().finish(Some(number(1)), Some(number(1)), None),
        Err(Skipped::BadPoolTarget)
    ));
}

#[test]
fn benchmark_template_is_decoded() {
    let t = benchmark_template().unwrap();
    assert_eq!(t.version, vec![2, 0, 0, 0, 0, 0, 0, 0]);
    assert_eq!(t.commit.len(), 49);
    assert_eq!(t.commit[..4], [0x01, 0x7e, 0xe8, 0x64]);
    assert_eq!(t.network_target.len(), 57);
    assert_eq!(t.network_target[..3], [0x81, 0x17, 0x73]);
    assert_eq!(t.pool_target, t.network_target);
    assert_eq!(t.pow_len, vec![0x40, 0, 0, 0, 0, 0, 0, 0]);
    assert_eq!(BENCHMARK_ID, 1337);
}

#[test]
fn template_from_hex_reports_the_first_bad_part() {
    let t = template_from_hex("0aFf", "", "10", "11", "12").unwrap();
    assert_eq!(t.version, vec![0x0a, 0xff]);
    assert_eq!(t.commit, Vec::<u8>::new());
    let e = template_from_hex("00", "123", "zz", "", "").unwrap_err();
    assert_eq!(e.field, TemplateField::Commit);
    assert_eq!(e.cause, HexError::OddLength);
    let e = template_from_hex("00", "12", "1g", "x", "").unwrap_err();
    assert_eq!(e.field, TemplateField::NetworkTarget);
    assert_eq!(e.cause, HexError::InvalidCharacter { c: 'g', index: 1 });
    let e = template_from_hex("00", "12", "13", "x", "").unwrap_err();
    assert_eq!(e.field, TemplateField::PoolTarget);
    let e = template_from_hex("00", "12", "13", "14", "  ").unwrap_err();
    assert_eq!(e.field, TemplateField::PowLen);
    let e = template_from_hex("0", "12", "13", "14", "  ").unwrap_err();
    assert_eq!(e.field, TemplateField::Version);
}

#[test]
fn benchmark_errors_have_their_messages() {
    let message = |v: &str, c: &str, n: &str, p: &str, l: &str| {
        template_from_hex(v, c, n, p, l).unwrap_err().message()
    };
    assert_eq!(message("0", "", "", "", ""), "Failed to decode version: Odd number of digits");
    assert_eq!(
        message("", "1g", "", "", ""),
        "Failed to decode commit: Invalid character 'g' at position 1"
    );
    assert_eq!(
        message("", "", "0", "", ""),
        "Failed to decode network target: Odd number of digits"
    );
    assert_eq!(
        message("", "", "", "\"0", ""),
        "Failed to decode pool target: Invalid character '\"' at position 0"
    );
    assert_eq!(
        message("", "", "", "", "00\n1"),
        "Failed to decode pow len: Invalid character '\\n' at position 2"
    );
    let e = KernelNotLoaded { cause: "gone".to_string() };
    assert_eq!(e.message(), "Could not load mining kernel: gone");
}
