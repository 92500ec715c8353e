//! The decisions of the two detectors. The caller sends the requests these
//! machines ask for and hands back what came of them.
use vstd::prelude::*;

use crate::structs::{kind_of, AttackKind, AttackType, Response};
use crate::text::{contains_text, text_contains};

verus! {

/// A delay of at least this many milliseconds makes a probe promising.
pub const DELAY_MS: u128 = 5000;

/// What the timing detector asks for next.
#[derive(Clone, Copy, Debug, PartialEq, Eq, Structural)]
pub enum TimingAction {
    /// Send the probe of `attack` with the payload at index `payload`, on a
    /// new connection.
    SendBad { attack: AttackType, payload: usize },
    /// Wait five seconds, then send the honest framing with the same payload
    /// on a new connection.
    SendCorrect { attack: AttackType, payload: usize },
    /// The delay was confirmed on every round.
    Found { attack: AttackType, payload: usize, bad_time: u128, correct_time: u128 },
    /// Every variant and payload was tried.
    Finished,
}

/// The timing detector: for each variant, for each payload, up to
/// `verify + 1` rounds of a probe and, when it was slow, the honest request.
pub struct TimingScan {
    /// The variants to try, in order.
    pub attacks: Vec<AttackType>,
    /// Number of payloads in the catalog.
    pub payloads: usize,
    /// Number of confirming rounds after the first.
    pub verify: usize,
    /// Index of the current variant.
    pub attack: usize,
    /// Index of the current payload.
    pub payload: usize,
    /// Current round, from 0 to `verify`.
    pub round: usize,
    /// Time of the last slow probe.
    pub bad_time: u128,
    /// What is asked for now.
    pub action: TimingAction,
}

/// The probe for variant `a` and payload `p`, or the end of the scan.
pub open spec fn timing_probe(attacks: Seq<AttackType>, payloads: nat, a: nat, p: nat) -> TimingAction {
    if a < attacks.len() && p < payloads {
        TimingAction::SendBad { attack: attacks[a as int], payload: p as usize }
    } else {
        TimingAction::Finished
    }
}

/// The variant and payload that follow payload `p` of variant `a`.
pub open spec fn next_payload(payloads: nat, a: nat, p: nat) -> (nat, nat) {
    if p + 1 < payloads {
        (a, p + 1)
    } else {
        (a + 1, 0)
    }
}

/// Where a timing scan stands: variant index, payload index, round, time of
/// the last slow probe, and what is asked for.
pub type TimingPos = (nat, nat, nat, u128, TimingAction);

/// The position at the first round of payload `p` of variant `a`.
pub open spec fn probe_at(attacks: Seq<AttackType>, payloads: nat, a: nat, p: nat, bad_time: u128) -> TimingPos {
    (a, p, 0, bad_time, timing_probe(attacks, payloads, a, p))
}

/// The position after the outcome of a probe.
pub open spec fn after_bad(attacks: Seq<AttackType>, payloads: nat, s: TimingPos, time: Option<u128>) -> TimingPos {
    let (a, p, i, b, action) = s;
    match time {
        Some(t) => if t >= DELAY_MS {
            (a, p, i, t, TimingAction::SendCorrect { attack: attacks[a as int], payload: p as usize })
        } else {
            let (na, np) = next_payload(payloads, a, p);
            probe_at(attacks, payloads, na, np, b)
        },
        None => {
            let (na, np) = next_payload(payloads, a, p);
            probe_at(attacks, payloads, na, np, b)
        },
    }
}

/// The position after the outcome of an honest request.
pub open spec fn after_correct(
    attacks: Seq<AttackType>,
    payloads: nat,
    verify: nat,
    s: TimingPos,
    time: Option<u128>,
) -> TimingPos {
    let (a, p, i, b, action) = s;
    match time {
        None => {
            let (na, np) = next_payload(payloads, a, p);
            probe_at(attacks, payloads, na, np, b)
        },
        Some(c) => if 2 * c > b {
            probe_at(attacks, payloads, a + 1, 0, b)
        } else if i == verify {
            (
                a,
                p,
                i,
                b,
                TimingAction::Found {
                    attack: attacks[a as int],
                    payload: p as usize,
                    bad_time: b,
                    correct_time: c,
                },
            )
        } else {
            (a, p, i + 1, b, TimingAction::SendBad { attack: attacks[a as int], payload: p as usize })
        },
    }
}

impl TimingScan {
    /// The scan's position.
    pub open spec fn pos(&self) -> TimingPos {
        (self.attack as nat, self.payload as nat, self.round as nat, self.bad_time, self.action)
    }

    /// Consistency of the position with the lists.
    pub open spec fn wf(&self) -> bool {
        &&& self.round <= self.verify
        &&& match self.action {
            TimingAction::SendBad { attack, payload } => self.attack < self.attacks@.len()
                && self.payload < self.payloads && attack == self.attacks@[self.attack as int]
                && payload == self.payload,
            TimingAction::SendCorrect { attack, payload } => self.attack < self.attacks@.len()
                && self.payload < self.payloads && attack == self.attacks@[self.attack as int]
                && payload == self.payload && self.bad_time >= DELAY_MS,
            _ => true,
        }
    }

    /// A scan of `attacks` over `payloads` payloads with `verify` confirming
    /// rounds; it starts with the first probe.
    pub fn new(attacks: Vec<AttackType>, payloads: usize, verify: usize) -> (r: TimingScan)
        ensures
            r.wf(),
            r.attacks@ == attacks@,
            r.payloads == payloads,
            r.verify == verify,
            r.attack == 0,
            r.payload == 0,
            r.round == 0,
            r.action == timing_probe(attacks@, payloads as nat, 0, 0),
    {
        let action = if attacks.len() > 0 && payloads > 0 {
            TimingAction::SendBad { attack: attacks[0], payload: 0 }
        } else {
            TimingAction::Finished
        };
        TimingScan { attacks, payloads, verify, attack: 0, payload: 0, round: 0, bad_time: 0, action }
    }

    fn move_to(&mut self, a: usize, p: usize)
        requires
            a <= old(self).attacks@.len(),
            old(self).round <= old(self).verify,
        ensures
            final(self).wf(),
            final(self).attacks == old(self).attacks,
            final(self).payloads == old(self).payloads,
            final(self).verify == old(self).verify,
            final(self).pos() == probe_at(
                old(self).attacks@,
                old(self).payloads as nat,
                a as nat,
                p as nat,
                old(self).bad_time,
            ),
    {
        self.attack = a;
        self.payload = p;
        self.round = 0;
        self.action = if a < self.attacks.len() && p < self.payloads {
            TimingAction::SendBad { attack: self.attacks[a], payload: p }
        } else {
            TimingAction::Finished
        };
    }

    /// Takes the outcome of the probe: its time, or `None` where it failed.
    /// A failed or fast probe moves on to the next payload; a slow one asks
    /// for the honest request.
    pub fn on_bad(&mut self, time: Option<u128>) -> (r: TimingAction)
        requires
            old(self).wf(),
            old(self).action is SendBad,
        ensures
            final(self).wf(),
            r == final(self).action,
            final(self).attacks == old(self).attacks,
            final(self).payloads == old(self).payloads,
            final(self).verify == old(self).verify,
            final(self).pos() == after_bad(old(self).attacks@, old(self).payloads as nat, old(self).pos(), time),
    {
        match time {
            Some(t) => {
                if t >= DELAY_MS {
                    self.bad_time = t;
                    self.action = TimingAction::SendCorrect {
                        attack: self.attacks[self.attack],
                        payload: self.payload,
                    };
                    return self.action;
                }
            },
            None => {},
        }
        self.skip_payload();
        self.action
    }

    fn skip_payload(&mut self)
        requires
            old(self).wf(),
            old(self).action is SendBad || old(self).action is SendCorrect,
        ensures
            final(self).wf(),
            final(self).attacks == old(self).attacks,
            final(self).payloads == old(self).payloads,
            final(self).verify == old(self).verify,
            ({
                let (a, p) = next_payload(
                    old(self).payloads as nat,
                    old(self).attack as nat,
                    old(self).payload as nat,
                );
                final(self).pos() == probe_at(old(self).attacks@, old(self).payloads as nat, a, p, old(self).bad_time)
            }),
    {
        let n = self.attacks.len();
        assert(self.attack < n);
        if self.payload + 1 < self.payloads {
            let a = self.attack;
            let p = self.payload + 1;
            self.move_to(a, p);
        } else {
            let a = self.attack + 1;
            self.move_to(a, 0);
        }
    }

    /// Whether an honest request that took `correct` milliseconds shows the
    /// target slow anyway: more than half the time of the last slow probe.
    pub fn is_false_positive(&self, correct: u128) -> (r: bool)
        ensures
            r == (2 * correct > self.bad_time),
    {
        correct > self.bad_time / 2
    }

    /// Takes the outcome of the honest request. A failed one moves on to the
    /// next payload. One that took more than half the probe's time shows the
    /// target is slow anyway: the variant is dropped. Otherwise the delay is
    /// confirmed after the last round, or the next round starts.
    pub fn on_correct(&mut self, time: Option<u128>) -> (r: TimingAction)
        requires
            old(self).wf(),
            old(self).action is SendCorrect,
        ensures
            final(self).wf(),
            r == final(self).action,
            final(self).attacks == old(self).attacks,
            final(self).payloads == old(self).payloads,
            final(self).verify == old(self).verify,
            final(self).pos() == after_correct(
                old(self).attacks@,
                old(self).payloads as nat,
                old(self).verify as nat,
                old(self).pos(),
                time,
            ),
    {
        match time {
            None => {
                self.skip_payload();
            },
            Some(c) => {
                let n = self.attacks.len();
                assert(self.attack < n);
                if self.is_false_positive(c) {
                    let a = self.attack + 1;
                    self.move_to(a, 0);
                } else if self.round == self.verify {
                    self.action = TimingAction::Found {
                        attack: self.attacks[self.attack],
                        payload: self.payload,
                        bad_time: self.bad_time,
                        correct_time: c,
                    };
                } else {
                    self.round = self.round + 1;
                    self.action = TimingAction::SendBad {
                        attack: self.attacks[self.attack],
                        payload: self.payload,
                    };
                }
            },
        }
        self.action
    }
}

/// The position after rounds of a slow probe and an honest request, with the
/// times `bads` and `corrects`.
pub open spec fn rounds_run(
    attacks: Seq<AttackType>,
    payloads: nat,
    verify: nat,
    s: TimingPos,
    bads: Seq<u128>,
    corrects: Seq<u128>,
) -> TimingPos
    decreases bads.len(),
{
    if bads.len() == 0 || corrects.len() == 0 {
        s
    } else {
        rounds_run(
            attacks,
            payloads,
            verify,
            after_correct(
                attacks,
                payloads,
                verify,
                after_bad(attacks, payloads, s, Some(bads[0])),
                Some(corrects[0]),
            ),
            bads.drop_first(),
            corrects.drop_first(),
        )
    }
}

/// Where the probe is slow on every remaining round and the honest request
/// takes at most half as long, the delay is confirmed after the last round,
/// with that round's times, and no earlier round confirms it: the finding
/// comes exactly once.
pub proof fn lemma_delay_confirmed(
    attacks: Seq<AttackType>,
    payloads: nat,
    verify: nat,
    s: TimingPos,
    bads: Seq<u128>,
    corrects: Seq<u128>,
)
    requires
        s.0 < attacks.len(),
        s.1 < payloads,
        s.2 <= verify,
        s.4 == (TimingAction::SendBad { attack: attacks[s.0 as int], payload: s.1 as usize }),
        bads.len() == verify + 1 - s.2,
        corrects.len() == bads.len(),
        forall|k: int| 0 <= k < bads.len() ==> #[trigger] bads[k] >= DELAY_MS,
        forall|k: int| 0 <= k < bads.len() ==> 2 * #[trigger] corrects[k] <= bads[k],
    ensures
        rounds_run(attacks, payloads, verify, s, bads, corrects).4 == (TimingAction::Found {
            attack: attacks[s.0 as int],
            payload: s.1 as usize,
            bad_time: bads.last(),
            correct_time: corrects.last(),
        }),
        forall|j: int|
            0 <= j < bads.len() ==> (#[trigger] rounds_run(
                attacks,
                payloads,
                verify,
                s,
                bads.take(j),
                corrects.take(j),
            )).4 is SendBad,
    decreases bads.len(),
{
    let s1 = after_bad(attacks, payloads, s, Some(bads[0]));
    assert(bads[0] >= DELAY_MS);
    assert(2 * corrects[0] <= bads[0]);
    let s2 = after_correct(attacks, payloads, verify, s1, Some(corrects[0]));
    let bs = bads.drop_first();
    let cs = corrects.drop_first();
    if s.2 == verify {
        assert(bs.len() == 0);
        assert(rounds_run(attacks, payloads, verify, s2, bs, cs) == s2);
    } else {
        assert forall|k: int| 0 <= k < bs.len() implies #[trigger] bs[k] >= DELAY_MS by {
            assert(bs[k] == bads[k + 1]);
        }
        assert forall|k: int| 0 <= k < bs.len() implies 2 * #[trigger] cs[k] <= bs[k] by {
            assert(bs[k] == bads[k + 1]);
            assert(cs[k] == corrects[k + 1]);
        }
        lemma_delay_confirmed(attacks, payloads, verify, s2, bs, cs);
        assert(bs.last() == bads.last());
        assert(cs.last() == corrects.last());
    }
    assert forall|j: int| 0 <= j < bads.len() implies (#[trigger] rounds_run(
        attacks,
        payloads,
        verify,
        s,
        bads.take(j),
        corrects.take(j),
    )).4 is SendBad by {
        if j > 0 {
            assert(bads.take(j).drop_first() =~= bs.take(j - 1));
            assert(corrects.take(j).drop_first() =~= cs.take(j - 1));
            assert(bads.take(j)[0] == bads[0]);
            assert(corrects.take(j)[0] == corrects[0]);
            assert(rounds_run(attacks, payloads, verify, s, bads.take(j), corrects.take(j))
                == rounds_run(attacks, payloads, verify, s2, bs.take(j - 1), cs.take(j - 1)));
            assert(rounds_run(attacks, payloads, verify, s2, bs.take(j - 1), cs.take(j - 1)).4 is SendBad);
        } else {
            assert(bads.take(j).len() == 0);
        }
    }
}

/// Where the probe and the honest request take the same time of at least
/// five seconds, no round confirms a delay: the probe asks for the honest
/// request, which then drops the variant.
pub proof fn lemma_slow_target_rejected(
    attacks: Seq<AttackType>,
    payloads: nat,
    verify: nat,
    s: TimingPos,
    t: u128,
)
    requires
        t >= DELAY_MS,
        s.0 < attacks.len(),
    ensures
        !(after_bad(attacks, payloads, s, Some(t)).4 is Found),
        after_bad(attacks, payloads, s, Some(t)).3 == t,
        after_correct(attacks, payloads, verify, after_bad(attacks, payloads, s, Some(t)), Some(t))
            == probe_at(attacks, payloads, s.0 + 1, 0, t),
        !(after_correct(
            attacks,
            payloads,
            verify,
            after_bad(attacks, payloads, s, Some(t)),
            Some(t),
        ).4 is Found),
{
}

/// The variant order of a scan: the timing variants first, with CL.TE before
/// TE.CL, then the others in their given order.
pub open spec fn timing_first(attacks: Seq<AttackType>) -> (Seq<AttackType>, Seq<AttackType>) {
    let time = attacks.filter(|t: AttackType| kind_of(t) == AttackKind::Time);
    let other = attacks.filter(|t: AttackType| kind_of(t) != AttackKind::Time);
    if time.len() == 2 && time[0] != AttackType::ClTeTime {
        (seq![time[1], time[0]], other)
    } else {
        (time, other)
    }
}

/// Splits the selected variants into those for the timing detector and the
/// others; a CL.TE timing variant goes first, since a TE.CL probe against a
/// CL.TE target can disturb other users.
pub fn split_attack_types(attacks: &Vec<AttackType>) -> (r: (Vec<AttackType>, Vec<AttackType>))
    ensures
        r.0@ == timing_first(attacks@).0,
        r.1@ == timing_first(attacks@).1,
{
    let mut time: Vec<AttackType> = Vec::new();
    let mut other: Vec<AttackType> = Vec::new();
    let mut i: usize = 0;
    assert(attacks@.subrange(0, 0) =~= Seq::<AttackType>::empty());
    while i < attacks.len()
        invariant
            i <= attacks@.len(),
            time@ == attacks@.subrange(0, i as int).filter(
                |t: AttackType| kind_of(t) == AttackKind::Time,
            ),
            other@ == attacks@.subrange(0, i as int).filter(
                |t: AttackType| kind_of(t) != AttackKind::Time,
            ),
        decreases attacks@.len() - i,
    {
        let t = attacks[i];
        proof {
            let s = attacks@.subrange(0, i + 1);
            assert(s.drop_last() =~= attacks@.subrange(0, i as int));
            assert(s.last() == t);
            s.lemma_filter_push(t, |t: AttackType| kind_of(t) == AttackKind::Time);
            s.drop_last().lemma_filter_push(t, |t: AttackType| kind_of(t) == AttackKind::Time);
            s.drop_last().lemma_filter_push(t, |t: AttackType| kind_of(t) != AttackKind::Time);
            assert(s =~= s.drop_last().push(t));
        }
        if t.kind() == AttackKind::Time {
            time.push(t);
        } else {
            other.push(t);
        }
        i = i + 1;
    }
    assert(attacks@.subrange(0, i as int) =~= attacks@);
    if time.len() == 2 && time[0] != AttackType::ClTeTime {
        let first = time[1];
        let second = time[0];
        time = Vec::new();
        time.push(first);
        time.push(second);
        assert(time@ =~= seq![first, second]);
    }
    (time, other)
}


/// The method of the request that probes how the target answers a wrong
/// method.
pub const WRONG_METHOD: &'static str = "GPOST";

/// The method a victim request gets once a smuggled `G` is put before it.
pub const SMUGGLED_METHOD: &'static str = "GGET";

/// A path the target is not expected to serve.
pub const MISSING_PATH: &'static str = "/so404mething";

/// The part of [`MISSING_PATH`] looked for in response bodies.
pub const PATH_MARKER: &'static str = "so404mething";

/// Number of victim requests sent at once after each attacker request.
pub const VICTIMS: usize = 5;

/// A reference response tells apart a changed request: its status differs
/// from the usual one, or its body echoes the marker.
pub open spec fn baseline_viable(usual: Response, changed: Response, marker: Seq<char>) -> bool {
    usual.code != changed.code || text_contains(changed.body@, marker)
}

/// Whether `changed`, the answer to a request with a wrong method or a
/// missing path, can be told apart from `usual` by its status or by `marker`
/// in its body.
pub fn is_baseline_viable(usual: &Response, changed: &Response, marker: &str) -> (r: bool)
    ensures
        r == baseline_viable(*usual, *changed, marker@),
{
    usual.code != changed.code || contains_text(changed.body.as_str(), marker)
}

/// Which detections the reference responses allow: none without the usual
/// response; the method one where the wrong-method response is there and
/// viable; the path one where the missing-path response is there and viable.
pub open spec fn baselines(
    usual: Option<Response>,
    wrong_method: Option<Response>,
    missing_path: Option<Response>,
) -> Option<(bool, bool)> {
    match usual {
        None => None,
        Some(u) => Some(
            (
                match wrong_method {
                    Some(w) => baseline_viable(u, w, WRONG_METHOD@),
                    None => false,
                },
                match missing_path {
                    Some(m) => baseline_viable(u, m, PATH_MARKER@),
                    None => false,
                },
            ),
        ),
    }
}

/// Whether the method and the path detections can run, given the reference
/// responses that came back; `None` where the usual request got none.
pub fn race_baselines(
    usual: &Option<Response>,
    wrong_method: &Option<Response>,
    missing_path: &Option<Response>,
) -> (r: Option<(bool, bool)>)
    ensures
        r == baselines(*usual, *wrong_method, *missing_path),
{
    match usual {
        None => None,
        Some(u) => {
            let method_ok = match wrong_method {
                Some(w) => is_baseline_viable(u, w, WRONG_METHOD),
                None => false,
            };
            let path_ok = match missing_path {
                Some(m) => is_baseline_viable(u, m, PATH_MARKER),
                None => false,
            };
            Some((method_ok, path_ok))
        },
    }
}

/// A victim's response shows the smuggled request: its body holds the
/// marker, or its status is the one of the changed request.
pub open spec fn victim_hit(victim: Response, marker: Seq<char>, code: u16) -> bool {
    text_contains(victim.body@, marker) || victim.code == code
}

/// Whether one victim response shows the smuggled request.
pub fn is_victim_hit(victim: &Response, marker: &str, code: u16) -> (r: bool)
    ensures
        r == victim_hit(*victim, marker@, code),
{
    contains_text(victim.body.as_str(), marker) || victim.code == code
}

/// What shows that a victim got the smuggled request of `attack`: for a
/// method variant the smuggled method in the body or the status of the
/// wrong-method reference, otherwise the missing path in the body or the
/// status of the missing-path reference.
pub fn victim_signs(attack: AttackType, wrong_method_code: u16, missing_path_code: u16) -> (r: (&'static str, u16))
    ensures
        kind_of(attack) == AttackKind::Method ==> r.0@ == SMUGGLED_METHOD@ && r.1
            == wrong_method_code,
        kind_of(attack) != AttackKind::Method ==> r.0@ == PATH_MARKER@ && r.1 == missing_path_code,
{
    match attack.kind() {
        AttackKind::Method => (SMUGGLED_METHOD, wrong_method_code),
        _ => (PATH_MARKER, missing_path_code),
    }
}

/// A victim slot that got a response showing the smuggled request.
pub open spec fn slot_hit(v: Option<Response>, marker: Seq<char>, code: u16) -> bool {
    match v {
        Some(r) => victim_hit(r, marker, code),
        None => false,
    }
}

/// Index of the first slot from `i` on that shows the smuggled request.
pub open spec fn first_hit_from(v: Seq<Option<Response>>, marker: Seq<char>, code: u16, i: int) -> Option<nat>
    decreases v.len() - i,
{
    if i < 0 || i >= v.len() {
        None
    } else if slot_hit(v[i], marker, code) {
        Some(i as nat)
    } else {
        first_hit_from(v, marker, code, i + 1)
    }
}

/// Where exactly one victim of a volley shows the smuggled request, that one
/// is reported, and only once.
pub proof fn lemma_single_victim_reported(v: Seq<Option<Response>>, marker: Seq<char>, code: u16, k: int)
    requires
        0 <= k < v.len(),
        slot_hit(v[k], marker, code),
        forall|j: int| 0 <= j < v.len() && j != k ==> !slot_hit(#[trigger] v[j], marker, code),
    ensures
        first_hit_from(v, marker, code, 0) == Some(k as nat),
{
    lemma_first_hit_skips(v, marker, code, 0, k);
}

proof fn lemma_first_hit_skips(v: Seq<Option<Response>>, marker: Seq<char>, code: u16, i: int, k: int)
    requires
        0 <= i <= k < v.len(),
        slot_hit(v[k], marker, code),
        forall|j: int| i <= j < k ==> !slot_hit(#[trigger] v[j], marker, code),
    ensures
        first_hit_from(v, marker, code, i) == Some(k as nat),
    decreases k - i,
{
    if i < k {
        assert(!slot_hit(v[i], marker, code));
        lemma_first_hit_skips(v, marker, code, i + 1, k);
    }
}

/// The first of a volley of victim responses that shows the smuggled request;
/// a victim whose request failed (`None`) shows nothing. Later hits are not
/// reported.
pub fn first_hit(victims: &Vec<Option<Response>>, marker: &str, code: u16) -> (r: Option<usize>)
    ensures
        r matches Some(k) ==> first_hit_from(victims@, marker@, code, 0) == Some(k as nat),
        r is None ==> first_hit_from(victims@, marker@, code, 0) is None,
{
    let mut i: usize = 0;
    while i < victims.len()
        invariant
            i <= victims@.len(),
            forall|j: int| 0 <= j < i ==> !slot_hit(#[trigger] victims@[j], marker@, code),
        decreases victims@.len() - i,
    {
        let hit = match &victims[i] {
            Some(v) => is_victim_hit(v, marker, code),
            None => false,
        };
        if hit {
            proof {
                lemma_first_hit_skips(victims@, marker@, code, 0, i as int);
            }
            return Some(i);
        }
        i = i + 1;
    }
    proof {
        lemma_no_hit(victims@, marker@, code, 0);
    }
    None
}

proof fn lemma_no_hit(v: Seq<Option<Response>>, marker: Seq<char>, code: u16, i: int)
    requires
        0 <= i <= v.len(),
        forall|j: int| 0 <= j < v.len() ==> !slot_hit(#[trigger] v[j], marker, code),
    ensures
        first_hit_from(v, marker, code, i) is None,
    decreases v.len() - i,
{
    if i < v.len() {
        assert(!slot_hit(v[i], marker, code));
        lemma_no_hit(v, marker, code, i + 1);
    }
}

/// What the race detector asks for next.
#[derive(Clone, Copy, Debug, PartialEq, Eq, Structural)]
pub enum RaceAction {
    /// Send the attacker request of `attack` with the payload at index
    /// `payload`.
    SendAttacker { attack: AttackType, payload: usize },
    /// Right away, send [`VICTIMS`] usual requests at once, each on its own
    /// connection.
    SendVictims { attack: AttackType, payload: usize },
    /// Victim number `victim` of the last volley saw the smuggled request.
    Found { attack: AttackType, payload: usize, victim: usize },
    /// Every variant and payload was tried.
    Finished,
}

/// The variants of one kind, each with a number of attempts.
pub open spec fn plan_part(attacks: Seq<AttackType>, kind: AttackKind, rounds: nat) -> Seq<(AttackType, nat)> {
    attacks.filter(|t: AttackType| kind_of(t) == kind).map_values(|t: AttackType| (t, rounds))
}

/// The attempts of a race scan: the method variants, `verify` times per
/// payload, where the wrong-method reference is usable; then the path
/// variants, once per payload, where the missing-path reference is usable.
pub open spec fn race_plan(attacks: Seq<AttackType>, verify: nat, method_ok: bool, path_ok: bool) -> Seq<(AttackType, nat)> {
    (if method_ok && verify > 0 {
        plan_part(attacks, AttackKind::Method, verify)
    } else {
        Seq::empty()
    }) + (if path_ok {
        plan_part(attacks, AttackKind::Path, 1)
    } else {
        Seq::empty()
    })
}

/// The attacker request for attempt `i` of payload `p` of entry `e`, or the
/// end of the scan.
pub open spec fn race_probe(plan: Seq<(AttackType, nat)>, payloads: nat, e: nat, p: nat) -> RaceAction {
    if e < plan.len() && p < payloads {
        RaceAction::SendAttacker { attack: plan[e as int].0, payload: p as usize }
    } else {
        RaceAction::Finished
    }
}

/// The entry, payload and attempt after attempt `i` of payload `p` of entry
/// `e`.
pub open spec fn race_next(plan: Seq<(AttackType, nat)>, payloads: nat, e: nat, p: nat, i: nat) -> (nat, nat, nat) {
    if e < plan.len() && i + 1 < plan[e as int].1 {
        (e, p, i + 1)
    } else if p + 1 < payloads {
        (e, p + 1, 0)
    } else {
        (e + 1, 0, 0)
    }
}

/// The race detector's order of attempts and its reaction to each.
pub struct RaceScan {
    /// Variants with their attempts per payload.
    pub plan: Vec<(AttackType, usize)>,
    /// Number of payloads in the catalog.
    pub payloads: usize,
    /// Index of the current plan entry.
    pub entry: usize,
    /// Index of the current payload.
    pub payload: usize,
    /// Current attempt.
    pub round: usize,
    /// What is asked for now.
    pub action: RaceAction,
}

/// The plan as a sequence of variants and attempt counts.
pub open spec fn plan_view(plan: Seq<(AttackType, usize)>) -> Seq<(AttackType, nat)> {
    plan.map_values(|x: (AttackType, usize)| (x.0, x.1 as nat))
}

fn push_part(plan: &mut Vec<(AttackType, usize)>, attacks: &Vec<AttackType>, kind: AttackKind, rounds: usize)
    ensures
        plan_view(final(plan)@) == plan_view(old(plan)@) + plan_part(attacks@, kind, rounds as nat),
{
    let ghost start = plan@;
    let mut i: usize = 0;
    assert(attacks@.subrange(0, 0) =~= Seq::<AttackType>::empty());
    assert(plan_view(plan@) =~= plan_view(start) + plan_part(attacks@.subrange(0, 0), kind, rounds as nat));
    while i < attacks.len()
        invariant
            i <= attacks@.len(),
            plan_view(plan@) == plan_view(start) + plan_part(attacks@.subrange(0, i as int), kind, rounds as nat),
        decreases attacks@.len() - i,
    {
        let t = attacks[i];
        proof {
            let s = attacks@.subrange(0, i + 1);
            assert(s.drop_last() =~= attacks@.subrange(0, i as int));
            assert(s =~= s.drop_last().push(t));
            s.drop_last().lemma_filter_push(t, |t: AttackType| kind_of(t) == kind);
        }
        let ghost before = plan@;
        if t.kind() == kind {
            plan.push((t, rounds));
            assert(plan_view(plan@) =~= plan_view(before).push((t, rounds as nat)));
        }
        proof {
            let s = attacks@.subrange(0, i + 1);
            let f = s.drop_last().filter(|t: AttackType| kind_of(t) == kind);
            if kind_of(t) == kind {
                assert(s.filter(|t: AttackType| kind_of(t) == kind) == f.push(t));
                assert(f.push(t).map_values(|t: AttackType| (t, rounds as nat)) =~= f.map_values(
                    |t: AttackType| (t, rounds as nat),
                ).push((t, rounds as nat)));
            } else {
                assert(s.filter(|t: AttackType| kind_of(t) == kind) == f);
            }
        }
        i = i + 1;
    }
    assert(attacks@.subrange(0, i as int) =~= attacks@);
}

/// `after` stands at the attempt that follows the one of `before`, and asks
/// for its attacker request, or is finished.
pub open spec fn race_moved_on(before: RaceScan, after: RaceScan) -> bool {
    let (e, p, i) = race_next(
        plan_view(before.plan@),
        before.payloads as nat,
        before.entry as nat,
        before.payload as nat,
        before.round as nat,
    );
    &&& after.entry == e
    &&& after.payload == p
    &&& after.round == i
    &&& after.action == if i == 0 {
        race_probe(plan_view(before.plan@), before.payloads as nat, e, p)
    } else {
        RaceAction::SendAttacker { attack: before.plan@[e as int].0, payload: p as usize }
    }
}

impl RaceScan {
    /// Consistency of the position with the plan.
    pub open spec fn wf(&self) -> bool {
        &&& forall|k: int| 0 <= k < self.plan@.len() ==> #[trigger] self.plan@[k].1 >= 1
        &&& match self.action {
            RaceAction::SendAttacker { attack, payload } | RaceAction::SendVictims {
                attack,
                payload,
            } => self.entry < self.plan@.len() && self.payload < self.payloads && self.round
                < self.plan@[self.entry as int].1 && attack == self.plan@[self.entry as int].0
                && payload == self.payload,
            _ => true,
        }
    }

    /// A scan of `attacks`: the method variants when the wrong-method
    /// reference is usable, the path variants when the missing-path one is.
    pub fn new(attacks: &Vec<AttackType>, payloads: usize, verify: usize, method_ok: bool, path_ok: bool) -> (r: RaceScan)
        ensures
            r.wf(),
            plan_view(r.plan@) == race_plan(attacks@, verify as nat, method_ok, path_ok),
            r.payloads == payloads,
            r.entry == 0,
            r.payload == 0,
            r.round == 0,
            r.action == race_probe(plan_view(r.plan@), payloads as nat, 0, 0),
    {
        let mut plan: Vec<(AttackType, usize)> = Vec::new();
        assert(plan_view(plan@) =~= Seq::<(AttackType, nat)>::empty());
        if method_ok && verify > 0 {
            push_part(&mut plan, attacks, AttackKind::Method, verify);
        }
        let ghost mid = plan_view(plan@);
        if path_ok {
            push_part(&mut plan, attacks, AttackKind::Path, 1);
        }
        assert(plan_view(plan@) =~= race_plan(attacks@, verify as nat, method_ok, path_ok));
        proof {
            assert forall|k: int| 0 <= k < plan@.len() implies #[trigger] plan@[k].1 >= 1 by {
                let v = plan_view(plan@);
                assert(v[k].1 == plan@[k].1);
                if k < mid.len() {
                    let f = attacks@.filter(|t: AttackType| kind_of(t) == AttackKind::Method);
                    assert(v[k] == mid[k]);
                    assert(mid[k] == (f[k], verify as nat));
                } else {
                    let f = attacks@.filter(|t: AttackType| kind_of(t) == AttackKind::Path);
                    assert(v[k] == plan_part(attacks@, AttackKind::Path, 1)[k - mid.len()]);
                    assert(v[k] == (f[k - mid.len()], 1nat));
                }
            }
        }
        let action = if plan.len() > 0 && payloads > 0 {
            RaceAction::SendAttacker { attack: plan[0].0, payload: 0 }
        } else {
            RaceAction::Finished
        };
        RaceScan { plan, payloads, entry: 0, payload: 0, round: 0, action }
    }

    fn advance(&mut self)
        requires
            old(self).wf(),
            old(self).action is SendAttacker || old(self).action is SendVictims,
        ensures
            final(self).wf(),
            final(self).plan == old(self).plan,
            final(self).payloads == old(self).payloads,
            race_moved_on(*old(self), *final(self)),
    {
        let n = self.plan.len();
        assert(self.entry < n);
        let rounds = self.plan[self.entry].1;
        if self.round + 1 < rounds {
            self.round = self.round + 1;
            self.action = RaceAction::SendAttacker {
                attack: self.plan[self.entry].0,
                payload: self.payload,
            };
        } else {
            if self.payload + 1 < self.payloads {
                self.payload = self.payload + 1;
            } else {
                self.entry = self.entry + 1;
                self.payload = 0;
            }
            self.round = 0;
            self.action = if self.entry < n && self.payload < self.payloads {
                RaceAction::SendAttacker { attack: self.plan[self.entry].0, payload: self.payload }
            } else {
                RaceAction::Finished
            };
        }
    }

    /// Takes the outcome of the attacker request: whether it got a response.
    /// After one, the victims are sent; after a failure, the next attempt.
    pub fn on_attacker(&mut self, ok: bool) -> (r: RaceAction)
        requires
            old(self).wf(),
            old(self).action is SendAttacker,
        ensures
            final(self).wf(),
            r == final(self).action,
            final(self).plan == old(self).plan,
            final(self).payloads == old(self).payloads,
            ok ==> final(self).action == (RaceAction::SendVictims {
                attack: old(self).plan@[old(self).entry as int].0,
                payload: old(self).payload,
            }) && final(self).entry == old(self).entry && final(self).payload == old(self).payload
                && final(self).round == old(self).round,
            !ok ==> race_moved_on(*old(self), *final(self)),
    {
        if ok {
            let n = self.plan.len();
            assert(self.entry < n);
            self.action = RaceAction::SendVictims {
                attack: self.plan[self.entry].0,
                payload: self.payload,
            };
        } else {
            self.advance();
        }
        self.action
    }

    /// Takes the first victim of the volley that saw the smuggled request,
    /// if any. A hit ends the scan with one finding; otherwise the next
    /// attempt follows.
    pub fn on_victims(&mut self, hit: Option<usize>) -> (r: RaceAction)
        requires
            old(self).wf(),
            old(self).action is SendVictims,
        ensures
            final(self).wf(),
            r == final(self).action,
            final(self).plan == old(self).plan,
            final(self).payloads == old(self).payloads,
            hit matches Some(k) ==> final(self).action == (RaceAction::Found {
                attack: old(self).plan@[old(self).entry as int].0,
                payload: old(self).payload,
                victim: k,
            }),
            hit is None ==> race_moved_on(*old(self), *final(self)),
    {
        match hit {
            Some(k) => {
                let n = self.plan.len();
                assert(self.entry < n);
                self.action = RaceAction::Found {
                    attack: self.plan[self.entry].0,
                    payload: self.payload,
                    victim: k,
                };
            },
            None => {
                self.advance();
            },
        }
        self.action
    }
}

} // verus!
