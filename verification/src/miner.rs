//! The decisions of the mining loop: how many threads mine, what each attempt
//! is given, and what follows from its result.

use vstd::prelude::*;
use vstd::utf8::*;

use crate::entropy::{draw_outcome, lemma_draw_outcome_len, os_random, NoEntropy};
use crate::hexadecimal::{
    all_hex_digits, hex_decode, hex_decoded, hex_decoding, hex_encoded, hex_error_message,
    hex_error_text, is_lower_hex, lemma_hex_round_trip, HexError,
};
use crate::noun::{atom_value, cell_view, number_view, tuple_view, Noun, NounView};

verus! {

/// The order of the field that nonces are drawn from.
pub const PRIME: u64 = 0xFFFF_FFFF_0000_0001;

/// What the pool asks for: the block to work on and the targets to hit.
#[derive(Debug)]
pub struct Template {
    pub version: Vec<u8>,
    pub commit: Vec<u8>,
    pub network_target: Vec<u8>,
    pub pool_target: Vec<u8>,
    pub pow_len: Vec<u8>,
}

/// A target that a solution hits.
#[derive(Debug, Clone, Copy, PartialEq, Eq, Structural)]
pub enum Target {
    Pool,
    Network,
}

// ------------------------------------------------------------ threads

/// The number of mining threads: all logical cores but two, at least one, and
/// no more than the configured limit. The core count is taken modulo the
/// range of 32 bits.
pub open spec fn thread_count(logical_cores: nat, max_threads: Option<u32>) -> nat {
    let cores = logical_cores % 0x1_0000_0000;
    let free = if cores > 3 { (cores - 2) as nat } else { 1 };
    match max_threads {
        Some(limit) if limit < free => limit as nat,
        _ => free,
    }
}

/// The number of mining threads.
pub fn mining_threads(logical_cores: usize, max_threads: Option<u32>) -> (r: u64)
    ensures
        r == thread_count(logical_cores as nat, max_threads),
{
    let cores: u64 = logical_cores as u64 % 0x1_0000_0000;
    let free: u64 = if cores > 3 { cores - 2 } else { 1 };
    match max_threads {
        Some(limit) => if (limit as u64) < free { limit as u64 } else { free },
        None => free,
    }
}

/// The numbers of `threads` threads: each once, in order, from zero.
pub open spec fn thread_ids(threads: nat) -> Seq<u64> {
    Seq::new(threads, |i: int| i as u64)
}

/// The numbers of `threads` threads.
fn numbered(threads: u64) -> (r: Vec<u64>)
    ensures
        r@ == thread_ids(threads as nat),
{
    let mut ids: Vec<u64> = Vec::new();
    let mut i: u64 = 0;
    while i < threads
        invariant
            i <= threads,
            ids@ =~= thread_ids(i as nat),
        decreases threads - i,
    {
        ids.push(i);
        i = i + 1;
    }
    ids
}

/// Two cores are left to the rest of the machine, where it has more than two;
/// a limit is kept; and without a limit of zero some thread mines.
pub proof fn lemma_thread_count_bounds(logical_cores: nat, max_threads: Option<u32>)
    ensures
        logical_cores > 2 ==> thread_count(logical_cores, max_threads) + 2 <= logical_cores,
        max_threads matches Some(limit) ==> thread_count(logical_cores, max_threads) <= limit,
        thread_count(logical_cores, max_threads) == 0 <==> max_threads == Some(0u32),
{
}

/// Without a limit every core but two mines, or one where there are no more
/// than two; a limit takes the place of a greater number, and of no smaller one.
pub proof fn lemma_thread_count_uses_the_machine(logical_cores: nat, limit: u32)
    requires
        logical_cores < 0x1_0000_0000,
    ensures
        logical_cores > 2 ==> thread_count(logical_cores, None) + 2 == logical_cores,
        logical_cores <= 2 ==> thread_count(logical_cores, None) == 1,
        limit <= thread_count(logical_cores, None) ==> thread_count(logical_cores, Some(limit))
            == limit,
        limit >= thread_count(logical_cores, None) ==> thread_count(logical_cores, Some(limit))
            == thread_count(logical_cores, None),
{
}

/// Where no attempt runs, a template has one kernel loaded for each thread,
/// with the numbers from zero on.
pub proof fn lemma_idle_template_loads_every_thread(
    miner: Miner,
    template: Template,
    after: Miner,
    action: TemplateAction,
)
    requires
        miner.takes(template, true, after, action),
    ensures
        after.template == Some(template),
        action matches TemplateAction::LoadKernels { ids } && ids@.len() == miner.threads && (
        forall|i: int| 0 <= i < miner.threads ==> ids@[i] == i),
{
}

// ------------------------------------------------------------ results

/// A solution as an attempt reports it.
#[derive(Debug)]
pub struct Solution {
    pub target: Target,
    pub commit: Noun,
    pub digest: Vec<u8>,
    pub proof: Noun,
}

/// Why an attempt gave nothing to go by.
#[derive(Debug, Clone, Copy, PartialEq, Eq, Structural)]
pub enum Setback {
    AttemptFailed,
    ResultNotCell,
    EffectNotCell,
    UnknownTarget,
    OffNetworkTarget,
    MessageNotCell,
    MessageTailNotCell,
}

/// What the result of an attempt means.
#[derive(Debug)]
pub enum Verdict {
    /// The attempt was cancelled in favour of a new template.
    Cancelled,
    /// The solution hit no target; the next attempt goes on from `nonce`.
    Missed { nonce: Noun },
    /// Nothing to go by.
    Setback(Setback),
    /// A solution for a target whose digest is no atom.
    DigestNotAtom,
    /// A solution to submit.
    Solved(Solution),
}

#[verifier::ext_equal]
pub struct SolutionView {
    pub target: Target,
    pub commit: NounView,
    pub digest: Seq<u8>,
    pub proof: NounView,
}

#[verifier::ext_equal]
pub enum VerdictView {
    Cancelled,
    Missed { nonce: NounView },
    Setback(Setback),
    DigestNotAtom,
    Solved(SolutionView),
}

impl View for Solution {
    type V = SolutionView;

    open spec fn view(&self) -> SolutionView {
        SolutionView {
            target: self.target,
            commit: self.commit@,
            digest: self.digest@,
            proof: self.proof@,
        }
    }
}

impl View for Verdict {
    type V = VerdictView;

    open spec fn view(&self) -> VerdictView {
        match self {
            Verdict::Cancelled => VerdictView::Cancelled,
            Verdict::Missed { nonce } => VerdictView::Missed { nonce: nonce@ },
            Verdict::Setback(why) => VerdictView::Setback(*why),
            Verdict::DigestNotAtom => VerdictView::DigestNotAtom,
            Verdict::Solved(solution) => VerdictView::Solved(solution@),
        }
    }
}

/// The target that an effect's tag names.
pub open spec fn named_target(tag: NounView) -> Option<Target> {
    if tag.is_text("pool"@) {
        Some(Target::Pool)
    } else if tag.is_text("network"@) {
        Some(Target::Network)
    } else {
        None
    }
}

/// What a success message `[commit digest proof]` for `target` means.
pub open spec fn message_verdict(target: Target, message: NounView) -> VerdictView {
    match message {
        NounView::Atom(_) => VerdictView::Setback(Setback::MessageNotCell),
        NounView::Cell(commit, rest) => match *rest {
            NounView::Atom(_) => VerdictView::Setback(Setback::MessageTailNotCell),
            NounView::Cell(digest, proof_noun) => match *digest {
                NounView::Cell(..) => VerdictView::DigestNotAtom,
                NounView::Atom(bytes) => VerdictView::Solved(
                    SolutionView {
                        target,
                        commit: *commit,
                        digest: bytes,
                        proof: *proof_noun,
                    },
                ),
            },
        },
    }
}

/// What an effect `[tag body]` means.
pub open spec fn effect_verdict(network_only: bool, tag: NounView, body: NounView) -> VerdictView {
    if tag.is_text("miss"@) {
        VerdictView::Missed { nonce: body }
    } else {
        match named_target(tag) {
            None => VerdictView::Setback(Setback::UnknownTarget),
            Some(Target::Pool) if network_only => VerdictView::Setback(Setback::OffNetworkTarget),
            Some(target) => message_verdict(target, body),
        }
    }
}

/// What the result of an attempt means: an effect is the head of the result.
pub open spec fn verdict(network_only: bool, result: Option<NounView>) -> VerdictView {
    match result {
        None => VerdictView::Setback(Setback::AttemptFailed),
        Some(NounView::Atom(_)) => VerdictView::Setback(Setback::ResultNotCell),
        Some(NounView::Cell(effect, _)) => match *effect {
            NounView::Atom(_) => if effect.is_text("poke"@) {
                VerdictView::Cancelled
            } else {
                VerdictView::Setback(Setback::EffectNotCell)
            },
            NounView::Cell(tag, body) => effect_verdict(network_only, *tag, *body),
        },
    }
}

/// The view of an optional noun.
pub open spec fn noun_option(n: Option<Noun>) -> Option<NounView> {
    match n {
        Some(noun) => Some(noun@),
        None => None,
    }
}

/// Reads a success message for `target`.
fn judge_message(target: Target, message: Noun) -> (r: Verdict)
    ensures
        r@ == message_verdict(target, message@),
{
    proof {
        reveal_with_fuel(Noun::shape, 4);
    }
    match message {
        Noun::Atom(_) => Verdict::Setback(Setback::MessageNotCell),
        Noun::Cell(commit, rest) => match *rest {
            Noun::Atom(_) => Verdict::Setback(Setback::MessageTailNotCell),
            Noun::Cell(digest, proof_noun) => match *digest {
                Noun::Cell(..) => Verdict::DigestNotAtom,
                Noun::Atom(bytes) => Verdict::Solved(
                    Solution { target, commit: *commit, digest: bytes, proof: *proof_noun },
                ),
            },
        },
    }
}

/// Reads an effect `[tag body]`.
fn judge_effect(network_only: bool, tag: &Noun, body: Noun) -> (r: Verdict)
    ensures
        r@ == effect_verdict(network_only, tag@, body@),
{
    if tag.eq_text("miss") {
        return Verdict::Missed { nonce: body };
    }
    let target = if tag.eq_text("pool") {
        Target::Pool
    } else if tag.eq_text("network") {
        Target::Network
    } else {
        return Verdict::Setback(Setback::UnknownTarget);
    };
    if network_only && target != Target::Network {
        return Verdict::Setback(Setback::OffNetworkTarget);
    }
    judge_message(target, body)
}

/// Tells what the result of an attempt means; `None` stands for an attempt
/// that ended in an error.
pub fn judge(network_only: bool, result: Option<Noun>) -> (r: Verdict)
    ensures
        r@ == verdict(network_only, noun_option(result)),
{
    match result {
        None => Verdict::Setback(Setback::AttemptFailed),
        Some(Noun::Atom(_)) => Verdict::Setback(Setback::ResultNotCell),
        Some(Noun::Cell(effect, _)) => {
            if effect.eq_text("poke") {
                return Verdict::Cancelled;
            }
            match *effect {
                Noun::Atom(_) => Verdict::Setback(Setback::EffectNotCell),
                Noun::Cell(tag, body) => judge_effect(network_only, &*tag, *body),
            }
        },
    }
}

// ------------------------------------------------------------ nonces

/// The nonce made of `draws`: an atom for the first draw, then for each draw
/// the cell of its atom and what was there before. Each atom is the draw
/// reduced to the field.
pub open spec fn nonce_view(draws: Seq<u64>) -> NounView
    decreases draws.len(),
{
    if draws.len() <= 1 {
        number_view((draws[0] % PRIME) as u64)
    } else {
        cell_view(number_view((draws.last() % PRIME) as u64), nonce_view(draws.drop_last()))
    }
}

/// Whether `n` is a fresh nonce: it is made of five draws.
pub open spec fn is_nonce(n: NounView) -> bool {
    exists|draws: Seq<u64>| draws.len() == 5 && n == #[trigger] nonce_view(draws)
}

/// The nonce made of five draws.
pub fn nonce_from(draws: &[u64; 5]) -> (r: Noun)
    ensures
        r@ == nonce_view(draws@),
        is_nonce(r@),
{
    let mut acc = Noun::number(draws[0] % PRIME);
    let mut i: usize = 1;
    proof {
        assert(draws@.subrange(0, 1)[0] == draws@[0]);
    }
    while i < 5
        invariant
            1 <= i <= 5,
            draws@.len() == 5,
            acc@ == nonce_view(draws@.subrange(0, i as int)),
        decreases 5 - i,
    {
        proof {
            let longer = draws@.subrange(0, i + 1);
            assert(longer.drop_last() =~= draws@.subrange(0, i as int));
            assert(longer.last() == draws@[i as int]);
        }
        acc = Noun::cell(Noun::number(draws[i] % PRIME), acc);
        i = i + 1;
    }
    assert(draws@.subrange(0, 5) =~= draws@);
    acc
}

/// The number of bytes that a nonce is drawn from.
pub const NONCE_BYTES: usize = 40;

/// The draws that bytes stand for: eight little-endian bytes each.
pub open spec fn draws_of(bytes: Seq<u8>) -> Seq<u64> {
    Seq::new(
        5,
        |i: int| vstd::bytes::spec_u64_from_le_bytes(bytes.subrange(8 * i, 8 * i + 8)),
    )
}

/// Whether asking the operating system for a nonce's bytes can give this nonce,
/// or none.
pub open spec fn drawn_nonce(n: Option<NounView>) -> bool {
    exists|filled: bool, bytes: Seq<u8>| #[trigger]
        draw_outcome(NONCE_BYTES as nat, filled, bytes) && match n {
            Some(nonce) => filled && nonce == nonce_view(draws_of(bytes)),
            None => !filled,
        }
}

/// The view of a nonce that may not have been had.
pub open spec fn nonce_result(r: Result<Noun, NoEntropy>) -> Option<NounView> {
    match r {
        Ok(nonce) => Some(nonce@),
        Err(_) => None,
    }
}

/// The nonce that random bytes stand for, if they were filled with entropy.
pub fn nonce_if_filled(filled: bool, bytes: &Vec<u8>) -> (r: Result<Noun, NoEntropy>)
    requires
        bytes@.len() == NONCE_BYTES,
    ensures
        r is Ok <==> filled,
        r matches Ok(nonce) ==> nonce@ == nonce_view(draws_of(bytes@)) && is_nonce(nonce@),
{
    if !filled {
        return Err(NoEntropy);
    }
    let draws: [u64; 5] = [
        draw_at(bytes, 0),
        draw_at(bytes, 8),
        draw_at(bytes, 16),
        draw_at(bytes, 24),
        draw_at(bytes, 32),
    ];
    assert(draws@ =~= draws_of(bytes@));
    Ok(nonce_from(&draws))
}

/// The draw that starts at place `i`.
fn draw_at(bytes: &Vec<u8>, i: usize) -> (r: u64)
    requires
        i + 8 <= bytes.len(),
    ensures
        r == vstd::bytes::spec_u64_from_le_bytes(bytes@.subrange(i as int, i + 8)),
{
    vstd::bytes::u64_from_le_bytes(
        vstd::slice::slice_subrange(bytes.as_slice(), i, i + 8),
    )
}

/// A fresh nonce.
pub fn fresh_nonce() -> (r: Result<Noun, NoEntropy>)
    ensures
        drawn_nonce(nonce_result(r)),
        r matches Ok(nonce) ==> is_nonce(nonce@),
{
    let mut bytes: Vec<u8> = vec![0u8; NONCE_BYTES];
    let filled = os_random(&mut bytes);
    assert(draw_outcome(NONCE_BYTES as nat, filled, bytes@));
    nonce_if_filled(filled, &bytes)
}

// ------------------------------------------------------------ candidates

/// The address that a candidate is sent to.
#[derive(Debug)]
pub struct Wire {
    pub source: String,
    pub version: u64,
    pub tag: String,
}

/// A candidate on its way to a mining kernel.
#[derive(Debug)]
pub struct Poke {
    pub wire: Wire,
    pub cause: Noun,
}

/// Why a thread gets no attempt.
#[derive(Debug, Clone, Copy, PartialEq, Eq, Structural)]
pub enum Skipped {
    NoTemplate,
    NoEntropy,
    BadCommit,
    BadNetworkTarget,
    BadPoolTarget,
}

/// A template and a nonce; `commit`, `network_target` and `pool_target` are
/// still to be decoded into nouns.
#[derive(Debug)]
pub struct Draft {
    pub version: Vec<u8>,
    pub commit: Vec<u8>,
    pub nonce: Noun,
    pub network_target: Vec<u8>,
    pub pool_target: Vec<u8>,
    pub pow_len: Vec<u8>,
}

/// A copy of bytes.
fn copied(bytes: &Vec<u8>) -> (r: Vec<u8>)
    ensures
        r@ == bytes@,
{
    let r = bytes.clone();
    assert(r@ =~= bytes@);
    r
}

impl Draft {
    /// Whether the draft is for `template`.
    pub open spec fn is_for(self, template: Template) -> bool {
        &&& self.version@ == template.version@
        &&& self.commit@ == template.commit@
        &&& self.network_target@ == template.network_target@
        &&& self.pool_target@ == template.pool_target@
        &&& self.pow_len@ == template.pow_len@
    }

    /// The candidate noun: `[%template version commit nonce network-target
    /// pool-target pow-len]`.
    pub open spec fn candidate(
        self,
        commit: NounView,
        network_target: NounView,
        pool_target: NounView,
    ) -> NounView {
        tuple_view(
            seq![
                NounView::Atom(encode_utf8("template"@)),
                NounView::Atom(self.version@),
                commit,
                self.nonce@,
                network_target,
                pool_target,
                NounView::Atom(self.pow_len@),
            ],
        )
    }

    /// Whether `r` is the candidate, given what decoding its three encoded
    /// parts gave, or the reason that there is none.
    pub open spec fn finishes(
        self,
        commit: Option<NounView>,
        network_target: Option<NounView>,
        pool_target: Option<NounView>,
        r: Result<Poke, Skipped>,
    ) -> bool {
        match r {
            Ok(poke) => {
                &&& commit is Some && network_target is Some && pool_target is Some
                &&& poke.cause@ == self.candidate(commit->0, network_target->0, pool_target->0)
                &&& poke.wire.source@ == "miner"@
                &&& poke.wire.version == 1
                &&& poke.wire.tag@ == "candidate"@
            },
            Err(why) => {
                &&& why == Skipped::BadCommit <==> commit is None
                &&& why == Skipped::BadNetworkTarget <==> commit is Some && network_target is None
                &&& why == Skipped::BadPoolTarget <==> commit is Some && network_target is Some
                    && pool_target is None
                &&& why != Skipped::NoTemplate && why != Skipped::NoEntropy
            },
        }
    }

    /// The candidate, given what decoding its three encoded parts gave. The
    /// first part that could not be decoded is the reason that there is none.
    pub fn finish(
        self,
        commit: Option<Noun>,
        network_target: Option<Noun>,
        pool_target: Option<Noun>,
    ) -> (r: Result<Poke, Skipped>)
        ensures
            self.finishes(
                noun_option(commit),
                noun_option(network_target),
                noun_option(pool_target),
                r,
            ),
    {
        let commit = match commit {
            Some(noun) => noun,
            None => return Err(Skipped::BadCommit),
        };
        let network_target = match network_target {
            Some(noun) => noun,
            None => return Err(Skipped::BadNetworkTarget),
        };
        let pool_target = match pool_target {
            Some(noun) => noun,
            None => return Err(Skipped::BadPoolTarget),
        };
        let items: Vec<Noun> = vec![
            Noun::text("template"),
            Noun::Atom(self.version),
            commit,
            self.nonce,
            network_target,
            pool_target,
            Noun::Atom(self.pow_len),
        ];
        proof {
            assert(items@.map_values(|n: Noun| n@) =~= seq![
                NounView::Atom(encode_utf8("template"@)),
                NounView::Atom(self.version@),
                commit@,
                self.nonce@,
                network_target@,
                pool_target@,
                NounView::Atom(self.pow_len@),
            ]);
        }
        let cause = Noun::tuple(items);
        Ok(
            Poke {
                wire: Wire {
                    source: "miner".to_owned(),
                    version: 1,
                    tag: "candidate".to_owned(),
                },
                cause,
            },
        )
    }
}

// ------------------------------------------------------------ the loop

/// The state of the mining loop.
#[derive(Debug)]
pub struct Miner {
    pub threads: u64,
    pub network_only: bool,
    pub template: Option<Template>,
    /// The threads whose kernels were loaded, one entry for each kernel, in
    /// the order of loading.
    pub loaded: Vec<u64>,
}

/// A next attempt on a thread, from `nonce` or else from a fresh nonce.
#[derive(Debug)]
pub struct Attempt {
    pub id: u64,
    pub nonce: Option<Noun>,
}

/// What follows when the template changes.
#[derive(Debug)]
pub enum TemplateAction {
    /// Load a kernel for each of these threads.
    LoadKernels { ids: Vec<u64> },
    /// Cancel what the kernels of these threads run, which is on the old
    /// template.
    CancelAttempts { ids: Vec<u64> },
}

/// How an attempt came back.
#[derive(Debug)]
pub enum Joined {
    /// The attempt on thread `id` ended, with its result if it gave one.
    Finished { id: u64, result: Option<Noun> },
    /// The task of an attempt broke off.
    Broken,
    /// No attempt was running.
    NoneRunning,
}

/// What follows when an attempt comes back.
#[derive(Debug)]
pub enum JoinAction {
    /// Nothing: the thread is gone.
    Wait,
    /// Start another attempt.
    Mine(Attempt),
    /// Submit the solution, then start another attempt.
    SubmitAndMine(Solution, Attempt),
    /// End the mining loop with an error.
    Stop,
}

/// The attempt that follows a verdict on the same thread: a miss goes on from
/// the nonce that it reports, everything else starts afresh.
pub open spec fn next_nonce(v: VerdictView) -> Option<NounView> {
    match v {
        VerdictView::Missed { nonce } => Some(nonce),
        _ => None,
    }
}

/// Whether `action` is what follows when an attempt comes back as `joined`.
pub open spec fn follows(network_only: bool, joined: Joined, action: JoinAction) -> bool {
    match joined {
        Joined::Broken | Joined::NoneRunning => action is Wait,
        Joined::Finished { id, result } => {
            let v = verdict(network_only, noun_option(result));
            match v {
                VerdictView::DigestNotAtom => action is Stop,
                VerdictView::Solved(solution) => {
                    &&& action matches JoinAction::SubmitAndMine(submitted, attempt)
                    &&& submitted@ == solution
                    &&& attempt.id == id
                    &&& attempt.nonce is None
                },
                _ => {
                    &&& action matches JoinAction::Mine(attempt)
                    &&& attempt.id == id
                    &&& noun_option(attempt.nonce) == next_nonce(v)
                },
            }
        },
    }
}

/// Whether `r` is the first attempt on thread `id`, if its kernel could be
/// loaded.
pub open spec fn starts(id: u64, loaded: bool, r: Option<Attempt>) -> bool {
    match r {
        Some(attempt) => loaded && attempt.id == id && attempt.nonce is None,
        None => !loaded,
    }
}

impl Miner {
    /// The state once `template` is the current template.
    pub open spec fn with_template(self, template: Template) -> Miner {
        Miner { template: Some(template), ..self }
    }

    /// Whether `action`, and then the state `after`, is what follows when
    /// `template` comes.
    pub open spec fn takes(
        self,
        template: Template,
        idle: bool,
        after: Miner,
        action: TemplateAction,
    ) -> bool {
        &&& after == self.with_template(template)
        &&& match action {
            TemplateAction::LoadKernels { ids } => idle && ids@ == thread_ids(self.threads as nat),
            TemplateAction::CancelAttempts { ids } => !idle && ids@ == self.loaded@,
        }
    }

    /// Whether `after` is the state once loading a kernel for thread `id` has
    /// gone well or badly.
    pub open spec fn boots(self, id: u64, loaded: bool, after: Miner) -> bool {
        &&& after.threads == self.threads
        &&& after.network_only == self.network_only
        &&& after.template == self.template
        &&& after.loaded@ == if loaded { self.loaded@.push(id) } else { self.loaded@ }
    }

    /// Whether `r` is what an attempt from `nonce`, or else from a fresh
    /// nonce, starts from. Only a fresh nonce needs entropy.
    pub open spec fn drafts(self, nonce: Option<NounView>, r: Result<Draft, Skipped>) -> bool {
        match r {
            Ok(draft) => {
                &&& self.template is Some
                &&& draft.is_for(self.template->0)
                &&& match nonce {
                    Some(given) => draft.nonce@ == given,
                    None => is_nonce(draft.nonce@) && drawn_nonce(Some(draft.nonce@)),
                }
            },
            Err(Skipped::NoTemplate) => self.template is None,
            Err(Skipped::NoEntropy) => self.template is Some && nonce is None && drawn_nonce(None),
            Err(_) => false,
        }
    }

    /// The state before any template came.
    pub fn new(logical_cores: usize, max_threads: Option<u32>, network_only: bool) -> (r: Miner)
        ensures
            r.threads == thread_count(logical_cores as nat, max_threads),
            r.network_only == network_only,
            r.template is None,
            r.loaded@ == Seq::<u64>::empty(),
    {
        Miner {
            threads: mining_threads(logical_cores, max_threads),
            network_only,
            template: None,
            loaded: Vec::new(),
        }
    }

    /// Takes a new template; `idle` tells whether no attempt is running.
    pub fn on_template(&mut self, template: Template, idle: bool) -> (r: TemplateAction)
        ensures
            old(self).takes(template, idle, *final(self), r),
    {
        self.template = Some(template);
        if idle {
            TemplateAction::LoadKernels { ids: numbered(self.threads) }
        } else {
            let ids = self.loaded.clone();
            assert(ids@ =~= self.loaded@);
            TemplateAction::CancelAttempts { ids }
        }
    }

    /// The first attempt on thread `id`, if its kernel could be loaded.
    pub fn on_kernel(&mut self, id: u64, loaded: bool) -> (r: Option<Attempt>)
        ensures
            old(self).boots(id, loaded, *final(self)),
            starts(id, loaded, r),
    {
        if loaded {
            self.loaded.push(id);
            Some(Attempt { id, nonce: None })
        } else {
            None
        }
    }

    /// What follows when an attempt comes back.
    pub fn on_join(&self, joined: Joined) -> (r: JoinAction)
        ensures
            follows(self.network_only, joined, r),
    {
        match joined {
            Joined::Broken => JoinAction::Wait,
            Joined::NoneRunning => JoinAction::Wait,
            Joined::Finished { id, result } => match judge(self.network_only, result) {
                Verdict::DigestNotAtom => JoinAction::Stop,
                Verdict::Solved(solution) => JoinAction::SubmitAndMine(
                    solution,
                    Attempt { id, nonce: None },
                ),
                Verdict::Missed { nonce } => JoinAction::Mine(Attempt { id, nonce: Some(nonce) }),
                Verdict::Cancelled => JoinAction::Mine(Attempt { id, nonce: None }),
                Verdict::Setback(_) => JoinAction::Mine(Attempt { id, nonce: None }),
            },
        }
    }

    /// The draft of an attempt on the current template from a nonce, if one
    /// could be had. A template that is missing is reported first.
    pub fn draft(&self, nonce: Result<Noun, NoEntropy>) -> (r: Result<Draft, Skipped>)
        ensures
            match r {
                Ok(draft) => {
                    &&& self.template is Some && nonce is Ok
                    &&& draft.is_for(self.template->0)
                    &&& draft.nonce@ == nonce->Ok_0@
                },
                Err(Skipped::NoTemplate) => self.template is None,
                Err(Skipped::NoEntropy) => self.template is Some && nonce is Err,
                Err(_) => false,
            },
    {
        match (&self.template, nonce) {
            (None, _) => Err(Skipped::NoTemplate),
            (Some(_), Err(_)) => Err(Skipped::NoEntropy),
            (Some(template), Ok(nonce)) => Ok(
                Draft {
                    version: copied(&template.version),
                    commit: copied(&template.commit),
                    nonce,
                    network_target: copied(&template.network_target),
                    pool_target: copied(&template.pool_target),
                    pow_len: copied(&template.pow_len),
                },
            ),
        }
    }

    /// The draft of an attempt on the current template, from `nonce` or else
    /// from a fresh nonce. Without a template there is none, nor where a fresh
    /// nonce is needed and there is no entropy.
    pub fn mine(&self, nonce: Option<Noun>) -> (r: Result<Draft, Skipped>)
        ensures
            self.drafts(noun_option(nonce), r),
    {
        let nonce = match nonce {
            Some(given) => Ok(given),
            None => fresh_nonce(),
        };
        self.draft(nonce)
    }
}

// ------------------------------------------------------------ benchmark

/// The number that stands for the benchmark's thread.
pub const BENCHMARK_ID: u64 = 1337;

/// A part of a template.
#[derive(Debug, Clone, Copy, PartialEq, Eq, Structural)]
pub enum TemplateField {
    Version,
    Commit,
    NetworkTarget,
    PoolTarget,
    PowLen,
}

/// The part of a template whose hexadecimal text could not be decoded.
#[derive(Debug, PartialEq, Eq)]
pub struct TemplateHexError {
    pub field: TemplateField,
    pub cause: HexError,
}

impl TemplateField {
    /// How the part is called in messages.
    pub open spec fn label_text(self) -> Seq<char> {
        match self {
            TemplateField::Version => "version"@,
            TemplateField::Commit => "commit"@,
            TemplateField::NetworkTarget => "network target"@,
            TemplateField::PoolTarget => "pool target"@,
            TemplateField::PowLen => "pow len"@,
        }
    }

    fn label(&self) -> (r: &'static str)
        ensures
            r@ == self.label_text(),
    {
        match self {
            TemplateField::Version => "version",
            TemplateField::Commit => "commit",
            TemplateField::NetworkTarget => "network target",
            TemplateField::PoolTarget => "pool target",
            TemplateField::PowLen => "pow len",
        }
    }
}

impl TemplateHexError {
    /// The message that is shown.
    pub open spec fn message_text(self) -> Seq<char> {
        "Failed to decode "@ + self.field.label_text() + ": "@ + hex_error_text(self.cause)
    }

    /// The message that is shown.
    pub fn message(&self) -> (r: String)
        ensures
            r@ == self.message_text(),
    {
        let mut r = "Failed to decode ".to_owned();
        r.append(self.field.label());
        r.append(": ");
        r.append(hex_error_message(&self.cause).as_str());
        r
    }
}

/// The benchmark's kernel could not be loaded.
#[derive(Debug)]
pub struct KernelNotLoaded {
    pub cause: String,
}

impl KernelNotLoaded {
    /// The message that is shown.
    pub fn message(&self) -> (r: String)
        ensures
            r@ == "Could not load mining kernel: "@ + self.cause@,
    {
        "Could not load mining kernel: ".to_owned().concat(self.cause.as_str())
    }
}

/// Whether the text `s` is the hexadecimal notation of bytes.
pub open spec fn is_hex(s: Seq<char>) -> bool {
    encode_utf8(s).len() % 2 == 0 && all_hex_digits(encode_utf8(s))
}

/// The bytes of which the text `s` is the hexadecimal notation.
pub open spec fn from_hex(s: Seq<char>) -> Seq<u8> {
    hex_decoded(encode_utf8(s))
}

/// The template whose parts are given in hexadecimal. The parts are decoded in
/// order, and the first that is no hexadecimal notation is reported.
pub fn template_from_hex(
    version: &str,
    commit: &str,
    network_target: &str,
    pool_target: &str,
    pow_len: &str,
) -> (r: Result<Template, TemplateHexError>)
    ensures
        match r {
            Ok(t) => {
                &&& is_hex(version@) && t.version@ == from_hex(version@)
                &&& is_hex(commit@) && t.commit@ == from_hex(commit@)
                &&& is_hex(network_target@) && t.network_target@ == from_hex(network_target@)
                &&& is_hex(pool_target@) && t.pool_target@ == from_hex(pool_target@)
                &&& is_hex(pow_len@) && t.pow_len@ == from_hex(pow_len@)
            },
            Err(e) => {
                let text = match e.field {
                    TemplateField::Version => version@,
                    TemplateField::Commit => commit@,
                    TemplateField::NetworkTarget => network_target@,
                    TemplateField::PoolTarget => pool_target@,
                    TemplateField::PowLen => pow_len@,
                };
                &&& hex_decoding(encode_utf8(text), Err(e.cause))
                &&& !is_hex(text)
                &&& e.field == TemplateField::Version || is_hex(version@)
                &&& e.field == TemplateField::Version || e.field == TemplateField::Commit
                    || is_hex(commit@)
                &&& e.field == TemplateField::PoolTarget || e.field == TemplateField::PowLen
                    ==> is_hex(network_target@)
                &&& e.field == TemplateField::PowLen ==> is_hex(pool_target@)
            },
        },
{
    let version = match hex_decode(version) {
        Ok(bytes) => bytes,
        Err(cause) => return Err(TemplateHexError { field: TemplateField::Version, cause }),
    };
    let commit = match hex_decode(commit) {
        Ok(bytes) => bytes,
        Err(cause) => return Err(TemplateHexError { field: TemplateField::Commit, cause }),
    };
    let network_target = match hex_decode(network_target) {
        Ok(bytes) => bytes,
        Err(cause) => return Err(TemplateHexError { field: TemplateField::NetworkTarget, cause }),
    };
    let pool_target = match hex_decode(pool_target) {
        Ok(bytes) => bytes,
        Err(cause) => return Err(TemplateHexError { field: TemplateField::PoolTarget, cause }),
    };
    let pow_len = match hex_decode(pow_len) {
        Ok(bytes) => bytes,
        Err(cause) => return Err(TemplateHexError { field: TemplateField::PowLen, cause }),
    };
    Ok(Template { version, commit, network_target, pool_target, pow_len })
}

/// Whether the first `n` characters are lower-case hexadecimal digits.
spec fn hex_prefix(s: Seq<char>, n: nat) -> bool
    decreases n,
{
    n == 0 || (is_lower_hex(s[n - 1]) && hex_prefix(s, (n - 1) as nat))
}

proof fn lemma_hex_prefix(s: Seq<char>, n: nat, i: int)
    requires
        hex_prefix(s, n),
        0 <= i < n,
    ensures
        is_lower_hex(s[i]),
    decreases n,
{
    if i < n - 1 {
        lemma_hex_prefix(s, (n - 1) as nat, i);
    }
}

/// An even number of lower-case digits is a hexadecimal notation.
proof fn lemma_lower_hex(s: Seq<char>)
    requires
        s.len() % 2 == 0,
        hex_prefix(s, s.len()),
    ensures
        is_hex(s),
        encode_utf8(s) =~= Seq::new(s.len(), |i: int| s[i] as u8),
{
    assert forall|i: int| 0 <= i < s.len() implies is_lower_hex(#[trigger] s[i]) by {
        lemma_hex_prefix(s, s.len(), i);
    }
    is_ascii_chars_encode_utf8(s);
}

/// The benchmark's commitment is hexadecimal.
proof fn lemma_benchmark_commit_is_hex()
    ensures
        is_hex(
            "017ee86437eac9dbae690081199671e25cb54ce700ff8cdb259db500063b409e2aa64f968ec7ed801e75db735d82443707"@,
        ),
{
    reveal_strlit(
        "017ee86437eac9dbae690081199671e25cb54ce700ff8cdb259db500063b409e2aa64f968ec7ed801e75db735d82443707",
    );
    reveal_with_fuel(hex_prefix, 15);
    let s =
        "017ee86437eac9dbae690081199671e25cb54ce700ff8cdb259db500063b409e2aa64f968ec7ed801e75db735d82443707"@;
    assert(hex_prefix(s, 14));
    assert(hex_prefix(s, 28));
    assert(hex_prefix(s, 42));
    assert(hex_prefix(s, 56));
    assert(hex_prefix(s, 70));
    assert(hex_prefix(s, 84));
    lemma_lower_hex(s);
}

/// The benchmark's target is hexadecimal.
proof fn lemma_benchmark_target_is_hex()
    ensures
        is_hex(
            "81177307ec6aacb01ef04b58dbf601823db967ef80ed5256e50304ab9031bb015f1c808d1d2058623e470ce8cdf54174c07f08c49a068e8f02"@,
        ),
{
    reveal_strlit(
        "81177307ec6aacb01ef04b58dbf601823db967ef80ed5256e50304ab9031bb015f1c808d1d2058623e470ce8cdf54174c07f08c49a068e8f02",
    );
    reveal_with_fuel(hex_prefix, 15);
    let s =
        "81177307ec6aacb01ef04b58dbf601823db967ef80ed5256e50304ab9031bb015f1c808d1d2058623e470ce8cdf54174c07f08c49a068e8f02"@;
    assert(hex_prefix(s, 14));
    assert(hex_prefix(s, 28));
    assert(hex_prefix(s, 42));
    assert(hex_prefix(s, 56));
    assert(hex_prefix(s, 70));
    assert(hex_prefix(s, 84));
    assert(hex_prefix(s, 98));
    assert(hex_prefix(s, 112));
    lemma_lower_hex(s);
}

/// The template that the benchmark mines on.
pub fn benchmark_template() -> (r: Result<Template, TemplateHexError>)
    ensures
        r matches Ok(t) && {
            &&& t.version@ == seq![2u8, 0, 0, 0, 0, 0, 0, 0]
            &&& t.commit@ == from_hex(
                "017ee86437eac9dbae690081199671e25cb54ce700ff8cdb259db500063b409e2aa64f968ec7ed801e75db735d82443707"@,
            )
            &&& t.network_target@ == from_hex(
                "81177307ec6aacb01ef04b58dbf601823db967ef80ed5256e50304ab9031bb015f1c808d1d2058623e470ce8cdf54174c07f08c49a068e8f02"@,
            )
            &&& t.pool_target@ == t.network_target@
            &&& t.pow_len@ == seq![0x40u8, 0, 0, 0, 0, 0, 0, 0]
        },
{
    proof {
        reveal_strlit("0200000000000000");
        reveal_strlit("4000000000000000");
        reveal_with_fuel(hex_prefix, 17);
        lemma_lower_hex("0200000000000000"@);
        lemma_lower_hex("4000000000000000"@);
        lemma_benchmark_commit_is_hex();
        lemma_benchmark_target_is_hex();
        assert(from_hex("0200000000000000"@) =~= seq![2u8, 0, 0, 0, 0, 0, 0, 0]);
        assert(from_hex("4000000000000000"@) =~= seq![0x40u8, 0, 0, 0, 0, 0, 0, 0]);
    }
    template_from_hex(
        "0200000000000000",
        "017ee86437eac9dbae690081199671e25cb54ce700ff8cdb259db500063b409e2aa64f968ec7ed801e75db735d82443707",
        "81177307ec6aacb01ef04b58dbf601823db967ef80ed5256e50304ab9031bb015f1c808d1d2058623e470ce8cdf54174c07f08c49a068e8f02",
        "81177307ec6aacb01ef04b58dbf601823db967ef80ed5256e50304ab9031bb015f1c808d1d2058623e470ce8cdf54174c07f08c49a068e8f02",
        "4000000000000000",
    )
}

// ------------------------------------------------------------ laws

/// An atom that equals one text equals no text with another first letter.
proof fn lemma_text_first_letter(tag: NounView, a: Seq<char>, b: Seq<char>)
    requires
        tag.is_text(a),
        is_ascii_chars(a),
        is_ascii_chars(b),
        a.len() > 0,
        b.len() > 0,
        a[0] != b[0],
    ensures
        !tag.is_text(b),
{
    is_ascii_chars_encode_utf8(a);
    is_ascii_chars_encode_utf8(b);
    if tag.is_text(b) {
        let stored = tag->Atom_0;
        assert(stored.subrange(0, encode_utf8(a).len() as int)[0] == encode_utf8(a)[0]);
        assert(stored.subrange(0, encode_utf8(b).len() as int)[0] == encode_utf8(b)[0]);
        assert(a[0] as u8 == b[0] as u8);
    }
}

/// The three tags of an effect exclude one another.
proof fn lemma_tags_exclusive(tag: NounView)
    ensures
        tag.is_text("pool"@) ==> !tag.is_text("miss"@) && !tag.is_text("network"@),
        tag.is_text("network"@) ==> !tag.is_text("miss"@) && !tag.is_text("pool"@),
{
    reveal_strlit("pool");
    reveal_strlit("network");
    reveal_strlit("miss");
    if tag.is_text("pool"@) {
        lemma_text_first_letter(tag, "pool"@, "miss"@);
        lemma_text_first_letter(tag, "pool"@, "network"@);
    }
    if tag.is_text("network"@) {
        lemma_text_first_letter(tag, "network"@, "miss"@);
        lemma_text_first_letter(tag, "network"@, "pool"@);
    }
}

/// The tag that names a target.
pub open spec fn target_tag(target: Target) -> Seq<char> {
    match target {
        Target::Pool => "pool"@,
        Target::Network => "network"@,
    }
}

/// A solution that an attempt reports for a target is read back as it is,
/// unless only network hits count and it hit the pool's target.
pub proof fn lemma_reported_solution_is_read(
    network_only: bool,
    tag: NounView,
    solution: SolutionView,
    rest: NounView,
)
    requires
        tag.is_text(target_tag(solution.target)),
        !(network_only && solution.target == Target::Pool),
    ensures
        verdict(
            network_only,
            Some(
                cell_view(
                    cell_view(
                        tag,
                        cell_view(
                            solution.commit,
                            cell_view(NounView::Atom(solution.digest), solution.proof),
                        ),
                    ),
                    rest,
                ),
            ),
        ) == VerdictView::Solved(solution),
{
    lemma_tags_exclusive(tag);
}

/// A solution is submitted only where the attempt's effect names the target
/// that is submitted.
pub proof fn lemma_only_reported_targets_are_submitted(network_only: bool, result: NounView)
    requires
        verdict(network_only, Some(result)) is Solved,
    ensures
        result matches NounView::Cell(effect, _) && *effect matches NounView::Cell(tag, _)
            && tag.is_text(
            target_tag(verdict(network_only, Some(result))->Solved_0.target),
        ),
{
}

/// A miner that counts network hits only submits no pool hit.
pub proof fn lemma_network_only_submits_network_hits(joined: Joined, action: JoinAction)
    requires
        follows(true, joined, action),
    ensures
        action matches JoinAction::SubmitAndMine(solution, _) ==> solution.target
            == Target::Network,
{
    if let JoinAction::SubmitAndMine(solution, _) = action {
        assert(solution@.target == solution.target);
    }
}

/// A thread whose attempt ended gets exactly one next attempt, whatever the
/// attempt gave, unless it reported a digest that is no atom: then mining
/// stops.
pub proof fn lemma_thread_goes_on(
    network_only: bool,
    id: u64,
    result: Option<Noun>,
    action: JoinAction,
)
    requires
        follows(network_only, Joined::Finished { id, result }, action),
    ensures
        match action {
            JoinAction::Wait => false,
            JoinAction::Mine(attempt) => attempt.id == id,
            JoinAction::SubmitAndMine(_, attempt) => attempt.id == id,
            JoinAction::Stop => verdict(network_only, noun_option(result)) is DigestNotAtom,
        },
{
}

/// A miss goes on from the nonce that it reports.
pub proof fn lemma_miss_goes_on_from_its_nonce(
    network_only: bool,
    id: u64,
    result: Noun,
    action: JoinAction,
    tag: NounView,
    nonce: NounView,
    rest: NounView,
)
    requires
        tag.is_text("miss"@),
        result@ == cell_view(cell_view(tag, nonce), rest),
        follows(network_only, Joined::Finished { id, result: Some(result) }, action),
    ensures
        action matches JoinAction::Mine(attempt) && attempt.id == id && noun_option(attempt.nonce)
            == Some(nonce),
{
    let v = verdict(network_only, Some(result@));
    assert(v == VerdictView::Missed { nonce });
    assert(noun_option(Some(result)) == Some(result@));
}

/// A cancelled attempt starts afresh, with a fresh nonce.
pub proof fn lemma_cancelled_attempt_starts_afresh(
    network_only: bool,
    id: u64,
    result: Noun,
    action: JoinAction,
    effect: NounView,
    rest: NounView,
)
    requires
        effect.is_text("poke"@),
        result@ == cell_view(effect, rest),
        follows(network_only, Joined::Finished { id, result: Some(result) }, action),
    ensures
        action matches JoinAction::Mine(attempt) && attempt.id == id && attempt.nonce is None,
{
    assert(noun_option(Some(result)) == Some(result@));
    assert(verdict(network_only, Some(result@)) == VerdictView::Cancelled);
}

/// Something that changes the state of the mining loop.
pub enum MinerEvent {
    /// A template came.
    Template(Template),
    /// Loading a kernel for thread `id` has gone well or badly.
    Kernel { id: u64, loaded: bool },
}

/// Whether `states` are the states before, between and after `events`.
pub open spec fn is_run(states: Seq<Miner>, events: Seq<MinerEvent>) -> bool {
    &&& states.len() == events.len() + 1
    &&& forall|i: int|
        0 <= i < events.len() ==> match events[i] {
            MinerEvent::Template(template) => states[i + 1] == (
            #[trigger] states[i]).with_template(template),
            MinerEvent::Kernel { id, loaded } => states[i].boots(id, loaded, states[i + 1]),
        }
}

/// The threads whose kernels were loaded over `events`, in order.
pub open spec fn booted(events: Seq<MinerEvent>) -> Seq<u64>
    decreases events.len(),
{
    if events.len() == 0 {
        Seq::empty()
    } else {
        match events.last() {
            MinerEvent::Kernel { id, loaded: true } => booted(events.drop_last()).push(id),
            _ => booted(events.drop_last()),
        }
    }
}

/// The template that came last over `events`, or else `before`.
pub open spec fn newest(before: Option<Template>, events: Seq<MinerEvent>) -> Option<Template>
    decreases events.len(),
{
    if events.len() == 0 {
        before
    } else {
        match events.last() {
            MinerEvent::Template(template) => Some(template),
            MinerEvent::Kernel { .. } => newest(before, events.drop_last()),
        }
    }
}

/// The state of the mining loop holds every kernel that was loaded, and the
/// template that came last.
pub proof fn lemma_run_is_remembered(states: Seq<Miner>, events: Seq<MinerEvent>)
    requires
        is_run(states, events),
    ensures
        states.last().loaded@ == states[0].loaded@ + booted(events),
        states.last().template == newest(states[0].template, events),
    decreases events.len(),
{
    if events.len() == 0 {
        assert(states[0].loaded@ + booted(events) =~= states[0].loaded@);
    } else {
        let n = events.len() - 1;
        let earlier = states.drop_last();
        let before = events.drop_last();
        assert forall|i: int| 0 <= i < before.len() implies match before[i] {
            MinerEvent::Template(template) => earlier[i + 1] == (
            #[trigger] earlier[i]).with_template(template),
            MinerEvent::Kernel { id, loaded } => earlier[i].boots(id, loaded, earlier[i + 1]),
        } by {
            assert(earlier[i] == states[i] && earlier[i + 1] == states[i + 1]);
            assert(before[i] == events[i]);
        }
        lemma_run_is_remembered(earlier, before);
        assert(states[n] == earlier.last());
        assert(states.last().loaded@ =~= states[0].loaded@ + booted(events));
    }
}

/// A template that comes while attempts run loads no kernel and cancels what
/// every kernel loaded so far runs; and from then on, until a later template
/// comes, every attempt is on it.
pub proof fn lemma_new_template_takes_over(
    states: Seq<Miner>,
    events: Seq<MinerEvent>,
    template: Template,
    action: TemplateAction,
    later_states: Seq<Miner>,
    later: Seq<MinerEvent>,
    nonce: Option<NounView>,
    r: Result<Draft, Skipped>,
)
    requires
        states.len() > 0 && states[0].loaded@ == Seq::<u64>::empty(),
        is_run(states, events),
        later_states.len() > 0,
        states.last().takes(template, false, later_states[0], action),
        is_run(later_states, later),
        forall|i: int| 0 <= i < later.len() ==> (#[trigger] later[i]) is Kernel,
        later_states.last().drafts(nonce, r),
    ensures
        action matches TemplateAction::CancelAttempts { ids } && ids@ == booted(events),
        match r {
            Ok(draft) => {
                &&& draft.version@ == template.version@
                &&& draft.commit@ == template.commit@
                &&& draft.network_target@ == template.network_target@
                &&& draft.pool_target@ == template.pool_target@
                &&& draft.pow_len@ == template.pow_len@
            },
            Err(why) => why == Skipped::NoEntropy && nonce is None,
        },
        r is Ok && nonce is Some ==> r->Ok_0.nonce@ == nonce->0,
{
    lemma_run_is_remembered(states, events);
    assert(states[0].loaded@ + booted(events) =~= booted(events));
    lemma_run_is_remembered(later_states, later);
    lemma_newest_without_templates(Some(template), later);
}

/// Where no template comes, the newest one stays.
proof fn lemma_newest_without_templates(before: Option<Template>, events: Seq<MinerEvent>)
    requires
        forall|i: int| 0 <= i < events.len() ==> (#[trigger] events[i]) is Kernel,
    ensures
        newest(before, events) == before,
    decreases events.len(),
{
    if events.len() > 0 {
        assert(events[events.len() - 1] is Kernel);
        lemma_newest_without_templates(before, events.drop_last());
    }
}

/// The candidate is the nested pairs of its seven parts, in order.
pub proof fn lemma_candidate_parts(
    draft: Draft,
    commit: NounView,
    network_target: NounView,
    pool_target: NounView,
)
    ensures
        draft.candidate(commit, network_target, pool_target) == cell_view(
            NounView::Atom(encode_utf8("template"@)),
            cell_view(
                NounView::Atom(draft.version@),
                cell_view(
                    commit,
                    cell_view(
                        draft.nonce@,
                        cell_view(
                            network_target,
                            cell_view(pool_target, NounView::Atom(draft.pow_len@)),
                        ),
                    ),
                ),
            ),
        ),
{
    reveal_with_fuel(tuple_view, 7);
}

/// The number that an atom of eight little-endian bytes denotes.
proof fn lemma_number_value(n: u64)
    ensures
        number_view(n) matches NounView::Atom(bytes) && atom_value(bytes) == n,
{
    vstd::bytes::spec_u64_to_le_bytes_to_open(n);
    let s = vstd::bytes::spec_u64_to_le_bytes_open(n);
    reveal_with_fuel(atom_value, 9);
    assert(n == (n & 0xff) + 256 * (((n >> 8) & 0xff) + 256 * (((n >> 16) & 0xff) + 256 * (((n
        >> 24) & 0xff) + 256 * (((n >> 32) & 0xff) + 256 * (((n >> 40) & 0xff) + 256 * (((n >> 48)
        & 0xff) + 256 * ((n >> 56) & 0xff)))))))) by (bit_vector);
    assert(forall|x: u64| #[trigger] (x & 0xff) < 256) by (bit_vector);
    assert(s.len() == 8);
    assert(s.drop_first().first() == s[1]);
    assert(s.drop_first().drop_first().first() == s[2]);
    assert(s.drop_first().drop_first().drop_first().first() == s[3]);
    assert(s.drop_first().drop_first().drop_first().drop_first().first() == s[4]);
}

/// Whether `n` is a list of `len` atoms that all denote elements of the field.
pub open spec fn field_elements(n: NounView, len: nat) -> bool
    decreases len,
{
    if len <= 1 {
        n matches NounView::Atom(bytes) && atom_value(bytes) < PRIME
    } else {
        n matches NounView::Cell(head, tail) && (*head matches NounView::Atom(bytes)
            && atom_value(bytes) < PRIME) && field_elements(*tail, (len - 1) as nat)
    }
}

proof fn lemma_draws_in_field(draws: Seq<u64>)
    requires
        draws.len() >= 1,
    ensures
        field_elements(nonce_view(draws), draws.len()),
    decreases draws.len(),
{
    if draws.len() == 1 {
        lemma_number_value((draws[0] % PRIME) as u64);
    } else {
        lemma_number_value((draws.last() % PRIME) as u64);
        lemma_draws_in_field(draws.drop_last());
    }
}

/// A fresh nonce is five elements of the field.
pub proof fn lemma_nonce_in_field(n: NounView)
    requires
        is_nonce(n),
    ensures
        field_elements(n, 5),
{
    let draws = choose|draws: Seq<u64>| draws.len() == 5 && n == #[trigger] nonce_view(draws);
    lemma_draws_in_field(draws);
}

/// Whether `n` is a list, in nested pairs, of atoms that denote `values`.
pub open spec fn lists(n: NounView, values: Seq<int>) -> bool
    decreases values.len(),
{
    if values.len() <= 1 {
        n matches NounView::Atom(bytes) && atom_value(bytes) == values[0]
    } else {
        n matches NounView::Cell(head, tail) && (*head matches NounView::Atom(bytes)
            && atom_value(bytes) == values[0]) && lists(*tail, values.drop_first())
    }
}

/// A nonce lists its five draws from the last to the first, each reduced to the
/// field.
pub proof fn lemma_nonce_lists_draws(draws: Seq<u64>)
    requires
        draws.len() == 5,
    ensures
        lists(
            nonce_view(draws),
            seq![
                draws[4] as int % 0xFFFF_FFFF_0000_0001,
                draws[3] as int % 0xFFFF_FFFF_0000_0001,
                draws[2] as int % 0xFFFF_FFFF_0000_0001,
                draws[1] as int % 0xFFFF_FFFF_0000_0001,
                draws[0] as int % 0xFFFF_FFFF_0000_0001,
            ],
        ),
{
    lemma_draws_are_listed(draws);
    assert(reduced(draws) =~= seq![
        draws[4] as int % 0xFFFF_FFFF_0000_0001,
        draws[3] as int % 0xFFFF_FFFF_0000_0001,
        draws[2] as int % 0xFFFF_FFFF_0000_0001,
        draws[1] as int % 0xFFFF_FFFF_0000_0001,
        draws[0] as int % 0xFFFF_FFFF_0000_0001,
    ]);
}

/// Draws from the last to the first, reduced to the field.
spec fn reduced(draws: Seq<u64>) -> Seq<int> {
    Seq::new(
        draws.len(),
        |i: int| draws[draws.len() - 1 - i] as int % 0xFFFF_FFFF_0000_0001,
    )
}

proof fn lemma_draws_are_listed(draws: Seq<u64>)
    requires
        draws.len() >= 1,
    ensures
        lists(nonce_view(draws), reduced(draws)),
    decreases draws.len(),
{
    if draws.len() == 1 {
        lemma_number_value((draws[0] % PRIME) as u64);
    } else {
        lemma_number_value((draws.last() % PRIME) as u64);
        lemma_draws_are_listed(draws.drop_last());
        assert(reduced(draws).drop_first() =~= reduced(draws.drop_last()));
    }
}

/// Each draw is the number that its eight bytes denote.
pub proof fn lemma_draws_are_little_endian(bytes: Seq<u8>, i: int)
    requires
        bytes.len() == 40,
        0 <= i < 5,
    ensures
        draws_of(bytes).len() == 5,
        draws_of(bytes)[i] == atom_value(bytes.subrange(8 * i, 8 * i + 8)),
{
    let part = bytes.subrange(8 * i, 8 * i + 8);
    vstd::bytes::lemma_auto_spec_u64_to_from_le_bytes();
    lemma_number_value(draws_of(bytes)[i]);
    assert(vstd::bytes::spec_u64_to_le_bytes(vstd::bytes::spec_u64_from_le_bytes(part)) == part);
}

/// An attempt that is given no nonce searches from five numbers that the
/// operating system gave when it was asked for forty bytes: each is eight of
/// the bytes, read as a little-endian number and reduced to the field. Entropy
/// is missing only where the operating system gave none.
pub proof fn lemma_fresh_attempt_is_drawn(miner: Miner, r: Result<Draft, Skipped>)
    requires
        miner.drafts(None, r),
    ensures
        match r {
            Ok(draft) => exists|bytes: Seq<u8>| #[trigger]
                draw_outcome(40, true, bytes) && bytes.len() == 40 && lists(
                    draft.nonce@,
                    seq![
                        atom_value(bytes.subrange(32, 40)) as int % 0xFFFF_FFFF_0000_0001,
                        atom_value(bytes.subrange(24, 32)) as int % 0xFFFF_FFFF_0000_0001,
                        atom_value(bytes.subrange(16, 24)) as int % 0xFFFF_FFFF_0000_0001,
                        atom_value(bytes.subrange(8, 16)) as int % 0xFFFF_FFFF_0000_0001,
                        atom_value(bytes.subrange(0, 8)) as int % 0xFFFF_FFFF_0000_0001,
                    ],
                ),
            Err(Skipped::NoEntropy) => exists|bytes: Seq<u8>| #[trigger]
                draw_outcome(40, false, bytes),
            Err(why) => why == Skipped::NoTemplate && miner.template is None,
        },
{
    if let Ok(draft) = r {
        let (filled, bytes) = choose|filled: bool, bytes: Seq<u8>| #[trigger]
            draw_outcome(NONCE_BYTES as nat, filled, bytes) && filled && draft.nonce@
                == nonce_view(draws_of(bytes));
        lemma_draw_outcome_len(40, true, bytes);
        lemma_draws_are_little_endian(bytes, 0);
        lemma_draws_are_little_endian(bytes, 1);
        lemma_draws_are_little_endian(bytes, 2);
        lemma_draws_are_little_endian(bytes, 3);
        lemma_draws_are_little_endian(bytes, 4);
        lemma_nonce_lists_draws(draws_of(bytes));
        assert(draw_outcome(40, true, bytes));
    }
}

/// An effect: a tag, and what goes with it.
pub struct Effect {
    pub tag: NounView,
    pub body: NounView,
}

/// The effect that a result reports, if it reports one.
pub open spec fn reported(result: Option<Noun>) -> Option<Effect> {
    match result {
        Some(noun) => match noun@ {
            NounView::Cell(effect, _) => match *effect {
                NounView::Cell(tag, body) => Some(Effect { tag: *tag, body: *body }),
                NounView::Atom(_) => None,
            },
            NounView::Atom(_) => None,
        },
        None => None,
    }
}

/// Whatever an attempt gave, the next attempt on its thread is given a nonce if
/// and only if the effect was a miss, and then it is the nonce that was
/// reported; in particular no attempt after a submission is given one.
pub proof fn lemma_only_a_miss_hands_on_a_nonce(
    network_only: bool,
    id: u64,
    result: Option<Noun>,
    action: JoinAction,
)
    requires
        follows(network_only, Joined::Finished { id, result }, action),
    ensures
        action matches JoinAction::SubmitAndMine(_, attempt) ==> attempt.id == id && attempt.nonce
            is None,
        action matches JoinAction::Mine(attempt) ==> {
            &&& attempt.id == id
            &&& attempt.nonce is Some <==> (reported(result) is Some
                && reported(result)->0.tag.is_text("miss"@))
            &&& attempt.nonce matches Some(nonce) ==> nonce@ == reported(result)->0.body
        },
        (reported(result) is Some && reported(result)->0.tag.is_text("miss"@)) ==> action is Mine,
{
}

/// What counts as a hit: the effect is tagged with a target, and the pool's
/// target counts only where not just the network's does.
pub open spec fn hits(network_only: bool, result: Option<Noun>, target: Target) -> bool {
    reported(result) matches Some(effect) && match target {
        Target::Pool => effect.tag.is_text("pool"@) && !network_only,
        Target::Network => effect.tag.is_text("network"@),
    }
}

/// A hit `[commit digest proof]` is submitted with the target that was hit and
/// with the parts that were reported.
pub proof fn lemma_hit_is_submitted_as_reported(
    network_only: bool,
    id: u64,
    result: Option<Noun>,
    action: JoinAction,
    target: Target,
    commit: NounView,
    digest: Seq<u8>,
    proof_noun: NounView,
)
    requires
        follows(network_only, Joined::Finished { id, result }, action),
        hits(network_only, result, target),
        reported(result)->0.body == cell_view(
            commit,
            cell_view(NounView::Atom(digest), proof_noun),
        ),
    ensures
        action matches JoinAction::SubmitAndMine(solution, attempt) && {
            &&& solution.target == target
            &&& solution.commit@ == commit
            &&& solution.digest@ == digest
            &&& solution.proof@ == proof_noun
            &&& attempt.id == id
            &&& attempt.nonce is None
        },
{
    lemma_tags_exclusive(reported(result)->0.tag);
    let v = verdict(network_only, noun_option(result));
    let seen = SolutionView { target, commit, digest, proof: proof_noun };
    assert(v == VerdictView::Solved(seen));
    if let JoinAction::SubmitAndMine(solution, attempt) = action {
        assert(solution@ == seen);
    }
}

/// Nothing but a hit of the form `[commit digest proof]` is submitted.
pub proof fn lemma_only_hits_are_submitted(
    network_only: bool,
    id: u64,
    result: Option<Noun>,
    action: JoinAction,
)
    requires
        follows(network_only, Joined::Finished { id, result }, action),
        action is SubmitAndMine,
    ensures
        action matches JoinAction::SubmitAndMine(solution, _) && {
            &&& hits(network_only, result, solution.target)
            &&& reported(result)->0.body == cell_view(
                solution.commit@,
                cell_view(NounView::Atom(solution.digest@), solution.proof@),
            )
        },
{
    if let JoinAction::SubmitAndMine(solution, _) = action {
        let v = verdict(network_only, noun_option(result));
        assert(v == VerdictView::Solved(solution@));
        assert(solution@.target == solution.target);
        lemma_tags_exclusive(reported(result)->0.tag);
    }
}

/// Mining stops if and only if a hit `[commit digest proof]` has a digest that
/// is no atom.
pub proof fn lemma_mining_stops_on_broken_digests_only(
    network_only: bool,
    id: u64,
    result: Option<Noun>,
    action: JoinAction,
)
    requires
        follows(network_only, Joined::Finished { id, result }, action),
    ensures
        action is Stop <==> {
            &&& hits(network_only, result, Target::Pool) || hits(
                network_only,
                result,
                Target::Network,
            )
            &&& reported(result)->0.body matches NounView::Cell(_, rest)
            &&& *rest matches NounView::Cell(digest, _)
            &&& *digest is Cell
        },
{
    if let Some(effect) = reported(result) {
        lemma_tags_exclusive(effect.tag);
    }
}

/// A kernel that could be loaded, and only such a one, gets an attempt on its
/// own thread, from a fresh nonce.
pub proof fn lemma_loaded_kernels_start_afresh(id: u64, loaded: bool, r: Option<Attempt>)
    requires
        starts(id, loaded, r),
    ensures
        r is Some <==> loaded,
        r is Some ==> r->0.id == id && r->0.nonce is None,
{
}

/// A candidate goes to the miner's wire and holds, in nested pairs, what was
/// drafted and what the encoded parts were decoded to. There is one if and only
/// if all three could be decoded, and else the first that could not is the
/// reason.
pub proof fn lemma_candidate_holds_what_was_drafted(
    draft: Draft,
    commit: Option<NounView>,
    network_target: Option<NounView>,
    pool_target: Option<NounView>,
    r: Result<Poke, Skipped>,
)
    requires
        draft.finishes(commit, network_target, pool_target, r),
    ensures
        r is Ok <==> commit is Some && network_target is Some && pool_target is Some,
        commit is None ==> r == Err::<Poke, Skipped>(Skipped::BadCommit),
        commit is Some && network_target is None ==> r == Err::<Poke, Skipped>(
            Skipped::BadNetworkTarget,
        ),
        commit is Some && network_target is Some && pool_target is None ==> r == Err::<
            Poke,
            Skipped,
        >(Skipped::BadPoolTarget),
        r is Ok ==> {
            let poke = r->Ok_0;
            &&& poke.wire.source@ == "miner"@ && poke.wire.version == 1 && poke.wire.tag@
                == "candidate"@
            &&& poke.cause@ == cell_view(
                NounView::Atom(encode_utf8("template"@)),
                cell_view(
                    NounView::Atom(draft.version@),
                    cell_view(
                        commit->0,
                        cell_view(
                            draft.nonce@,
                            cell_view(
                                network_target->0,
                                cell_view(pool_target->0, NounView::Atom(draft.pow_len@)),
                            ),
                        ),
                    ),
                ),
            )
        },
{
    if r is Ok {
        lemma_candidate_parts(draft, commit->0, network_target->0, pool_target->0);
    }
}

/// The hexadecimal notation of any bytes is read as those bytes.
pub proof fn lemma_template_parts_are_read_back(bytes: Seq<u8>)
    ensures
        is_hex(hex_encoded(bytes)),
        from_hex(hex_encoded(bytes)) == bytes,
{
    lemma_hex_round_trip(bytes);
}

/// How the parts of a template are called in messages.
pub proof fn lemma_template_messages(cause: HexError)
    ensures
        (TemplateHexError { field: TemplateField::Version, cause }).message_text()
            == "Failed to decode "@ + "version"@ + ": "@ + hex_error_text(cause),
        (TemplateHexError { field: TemplateField::Commit, cause }).message_text()
            == "Failed to decode "@ + "commit"@ + ": "@ + hex_error_text(cause),
        (TemplateHexError { field: TemplateField::NetworkTarget, cause }).message_text()
            == "Failed to decode "@ + "network target"@ + ": "@ + hex_error_text(cause),
        (TemplateHexError { field: TemplateField::PoolTarget, cause }).message_text()
            == "Failed to decode "@ + "pool target"@ + ": "@ + hex_error_text(cause),
        (TemplateHexError { field: TemplateField::PowLen, cause }).message_text()
            == "Failed to decode "@ + "pow len"@ + ": "@ + hex_error_text(cause),
{
}

} // verus!
