//! Replay protection, amplification limits and certificate life cycle.

use vstd::prelude::*;

use crate::session::codec;
use crate::session::codec::saturating_times;
use crate::text;
use crate::text::lower_text;

verus! {

/// Sliding replay window for monotonic sequence numbers.
#[derive(Debug, Clone, Copy, PartialEq, Eq, Structural)]
pub struct ReplayWindow {
    pub max_seen: u64,
    pub bits: u128,
    pub window_size: u64,
}

/// What a [`ReplayWindow`] remembers: the numbers seen among the last
/// `window_size` up to the highest.
#[verifier::ext_equal]
pub struct WindowView {
    pub max_seen: u64,
    pub window_size: u64,
    pub recent: Set<u64>,
}

/// Whether bit `i` is set, for `i` below the width.
pub open spec fn bit_set(bits: u128, i: u64) -> bool {
    (bits >> (i as u128)) & 1 == 1
}

impl View for ReplayWindow {
    type V = WindowView;

    open spec fn view(&self) -> WindowView {
        WindowView {
            max_seen: self.max_seen,
            window_size: self.window_size,
            recent: Set::new(
                |s: u64|
                    s <= self.max_seen && self.max_seen - s < self.window_size && bit_set(
                        self.bits,
                        (self.max_seen - s) as u64,
                    ),
            ),
        }
    }
}

impl WindowView {
    /// A number is acceptable if it is new and not older than the window.
    pub open spec fn accepts(self, sequence: u64) -> bool {
        ||| sequence > self.max_seen
        ||| self.max_seen - sequence < self.window_size && !self.recent.contains(sequence)
    }

    /// The window after an acceptable number.
    pub open spec fn after(self, sequence: u64) -> WindowView {
        let max_seen = if sequence > self.max_seen {
            sequence
        } else {
            self.max_seen
        };
        WindowView {
            max_seen,
            window_size: self.window_size,
            recent: Set::new(
                |s: u64|
                    max_seen - s < self.window_size && (s == sequence || self.recent.contains(s)),
            ),
        }
    }

    /// That a number can no longer be accepted.
    pub open spec fn is_spent(self, sequence: u64) -> bool {
        sequence <= self.max_seen && (self.recent.contains(sequence) || self.max_seen - sequence
            >= self.window_size)
    }
}

proof fn lemma_bits_shifted(bits: u128, k: u128, i: u128, j: u128)
    by (bit_vector)
    requires
        k < 128,
        i < 128,
        i >= k ==> i == j + k,
    ensures
        ((((bits << k) | 1) >> i) & 1 == 1) == (i == 0 || (i >= k && (bits >> j) & 1 == 1)),
{
}

proof fn lemma_bits_marked(bits: u128, d: u128, i: u128)
    by (bit_vector)
    requires
        d < 128,
        i < 128,
    ensures
        (((bits | (1u128 << d)) >> i) & 1 == 1) == (i == d || (bits >> i) & 1 == 1),
        (bits & (1u128 << d) != 0) == ((bits >> d) & 1 == 1),
{
}

proof fn lemma_no_bits(i: u128)
    by (bit_vector)
    requires
        i < 128,
    ensures
        (0u128 >> i) & 1 == 0,
        ((1u128 >> i) & 1 == 1) == (i == 0),
{
}

impl ReplayWindow {
    pub open spec fn wf(&self) -> bool {
        &&& 1 <= self.window_size <= 128
        &&& self.bits == 0 ==> self.max_seen == 0
    }

    pub fn new(window_size: u64) -> (window: ReplayWindow)
        ensures
            window.wf(),
            window@ == (WindowView {
                max_seen: 0,
                window_size: if window_size < 1 {
                    1
                } else if window_size > 128 {
                    128
                } else {
                    window_size
                },
                recent: Set::empty(),
            }),
    {
        let size: u64 = if window_size < 1 {
            1
        } else if window_size > 128 {
            128
        } else {
            window_size
        };
        let window = ReplayWindow { max_seen: 0, bits: 0, window_size: size };
        proof {
            lemma_no_bits(0);
            assert(window@.recent =~= Set::empty());
        }
        window
    }

    pub fn max_seen(&self) -> (max: u64)
        ensures
            max == self@.max_seen,
    {
        self.max_seen
    }

    /// Returns true if sequence has not been seen and is within window bounds,
    /// and remembers it then.
    pub fn accept(&mut self, sequence: u64) -> (accepted: bool)
        requires
            old(self).wf(),
        ensures
            final(self).wf(),
            accepted == old(self)@.accepts(sequence),
            final(self)@ == if accepted {
                old(self)@.after(sequence)
            } else {
                old(self)@
            },
    {
        let ghost before = *self;
        if self.max_seen == 0 && self.bits == 0 {
            self.max_seen = sequence;
            self.bits = 1;
            proof {
                lemma_no_bits(0);
                assert forall|s: u64| self@.recent.contains(s) == before@.after(
                    sequence,
                ).recent.contains(s) by {
                    if s <= sequence && sequence - s < self.window_size {
                        lemma_no_bits((sequence - s) as u128);
                    }
                }
                assert(self@ =~= before@.after(sequence));
            }
            return true;
        }
        if sequence > self.max_seen {
            let shift: u64 = sequence - self.max_seen;
            if shift >= self.window_size {
                self.bits = 1;
            } else {
                self.bits = (self.bits << (shift as u128)) | 1;
            }
            self.max_seen = sequence;
            proof {
                assert forall|s: u64| self@.recent.contains(s) == before@.after(
                    sequence,
                ).recent.contains(s) by {
                    if s <= sequence && sequence - s < self.window_size {
                        let i = (sequence - s) as u128;
                        if shift >= before.window_size {
                            lemma_no_bits(i);
                        } else {
                            let j = if i >= shift {
                                (i - shift) as u128
                            } else {
                                0
                            };
                            lemma_bits_shifted(before.bits, shift as u128, i, j);
                        }
                    }
                }
                assert(self@ =~= before@.after(sequence));
                if shift < before.window_size {
                    lemma_bits_shifted(before.bits, shift as u128, 0, 0);
                    lemma_no_bits(0);
                }
            }
            return true;
        }
        let delta: u64 = self.max_seen - sequence;
        if delta >= self.window_size {
            return false;
        }
        let mask: u128 = 1u128 << (delta as u128);
        proof {
            lemma_bits_marked(self.bits, delta as u128, 0);
        }
        if self.bits & mask != 0 {
            return false;
        }
        self.bits = self.bits | mask;
        proof {
            assert forall|s: u64| self@.recent.contains(s) == before@.after(
                sequence,
            ).recent.contains(s) by {
                if s <= self.max_seen && self.max_seen - s < self.window_size {
                    lemma_bits_marked(before.bits, delta as u128, (self.max_seen - s) as u128);
                }
            }
            assert(self@ =~= before@.after(sequence));
            lemma_bits_marked(before.bits, delta as u128, delta as u128);
            lemma_no_bits(delta as u128);
        }
        true
    }
}

/// A number that was accepted is spent, and no later number makes a spent one
/// acceptable again: no number is accepted twice.
pub proof fn law_no_number_is_accepted_twice(window: WindowView, sequence: u64, later: u64)
    requires
        window.window_size >= 1,
    ensures
        window.accepts(sequence) ==> window.after(sequence).is_spent(sequence),
        window.is_spent(sequence) ==> !window.accepts(sequence),
        window.is_spent(sequence) && window.accepts(later) ==> window.after(later).is_spent(
            sequence,
        ),
{
}

/// A number higher than all before is always accepted.
pub proof fn law_fresh_numbers_are_accepted(window: WindowView, sequence: u64)
    requires
        sequence > window.max_seen,
    ensures
        window.accepts(sequence),
        window.after(sequence).max_seen == sequence,
{
}

/// Pre-auth anti-amplification accounting gate.
#[derive(Debug, Clone, Copy, PartialEq, Eq, Structural)]
pub struct AntiAmplificationGate {
    pub bytes_in: u64,
    pub bytes_out: u64,
    pub amplification_factor: u64,
    pub authenticated: bool,
}

impl Default for AntiAmplificationGate {
    fn default() -> (gate: AntiAmplificationGate)
        ensures
            gate == (AntiAmplificationGate {
                bytes_in: 0,
                bytes_out: 0,
                amplification_factor: 3,
                authenticated: false,
            }),
    {
        AntiAmplificationGate::new(3)
    }
}

impl AntiAmplificationGate {
    /// Whether `bytes` more may leave: all once the peer is authenticated, else
    /// up to the factor times what came in.
    pub open spec fn allows(self, bytes: u64) -> bool {
        self.authenticated || codec::saturating_sum(self.bytes_out, bytes)
            <= codec::saturating_product(self.bytes_in, self.amplification_factor)
    }

    pub fn new(amplification_factor: u64) -> (gate: AntiAmplificationGate)
        ensures
            gate == (AntiAmplificationGate {
                bytes_in: 0,
                bytes_out: 0,
                amplification_factor: if amplification_factor < 1 {
                    1
                } else {
                    amplification_factor
                },
                authenticated: false,
            }),
    {
        AntiAmplificationGate {
            bytes_in: 0,
            bytes_out: 0,
            amplification_factor: if amplification_factor < 1 {
                1
            } else {
                amplification_factor
            },
            authenticated: false,
        }
    }

    pub fn on_receive(&mut self, bytes: u64)
        ensures
            *final(self) == (AntiAmplificationGate {
                bytes_in: codec::saturating_sum(old(self).bytes_in, bytes),
                ..*old(self)
            }),
    {
        self.bytes_in = self.bytes_in.saturating_add(bytes);
    }

    pub fn can_send(&self, bytes: u64) -> (allowed: bool)
        ensures
            allowed == self.allows(bytes),
    {
        if self.authenticated {
            return true;
        }
        let allowed: u64 = saturating_times(self.bytes_in, self.amplification_factor);
        self.bytes_out.saturating_add(bytes) <= allowed
    }

    pub fn on_send(&mut self, bytes: u64) -> (sent: bool)
        ensures
            sent == old(self).allows(bytes),
            *final(self) == if sent {
                AntiAmplificationGate {
                    bytes_out: codec::saturating_sum(old(self).bytes_out, bytes),
                    ..*old(self)
                }
            } else {
                *old(self)
            },
    {
        if !self.can_send(bytes) {
            return false;
        }
        self.bytes_out = self.bytes_out.saturating_add(bytes);
        true
    }

    pub fn mark_authenticated(&mut self)
        ensures
            *final(self) == (AntiAmplificationGate { authenticated: true, ..*old(self) }),
    {
        self.authenticated = true;
    }
}

/// Before the peer is authenticated no more than the factor times what came in
/// leaves: sending keeps the bound, receiving does too.
pub proof fn law_unauthenticated_output_is_bounded(gate: AntiAmplificationGate, bytes: u64)
    requires
        !gate.authenticated,
        gate.bytes_out <= codec::saturating_product(gate.bytes_in, gate.amplification_factor),
    ensures
        gate.allows(bytes) ==> codec::saturating_sum(gate.bytes_out, bytes)
            <= codec::saturating_product(gate.bytes_in, gate.amplification_factor),
        gate.bytes_out <= codec::saturating_product(
            codec::saturating_sum(gate.bytes_in, bytes),
            gate.amplification_factor,
        ),
{
    let more = codec::saturating_sum(gate.bytes_in, bytes);
    assert(gate.bytes_in * gate.amplification_factor <= more * gate.amplification_factor)
        by (nonlinear_arith)
        requires
            gate.bytes_in <= more,
            gate.amplification_factor >= 0,
    ;
}

#[derive(Debug, Clone, Copy, PartialEq, Eq, Structural)]
pub enum MtlsPolicy {
    Disabled,
    Optional,
    Required,
}

impl MtlsPolicy {
    pub fn requires_client_cert(self) -> (required: bool)
        ensures
            required == (self == MtlsPolicy::Required),
    {
        matches!(self, MtlsPolicy::Required)
    }
}

#[derive(Debug, Clone, PartialEq, Eq)]
pub struct CertMetadata {
    pub cert_id: String,
    pub fingerprint_sha256_hex: String,
    pub not_before_ms: u64,
    pub not_after_ms: u64,
}

#[derive(Debug, Clone, Copy, PartialEq, Eq, Structural)]
pub enum ExpiryAlarmLevel {
    NoAlarm,
    Warning30d,
    High14d,
    Critical7d,
    Expired,
}

pub const DAY_MS: u64 = 86_400_000;

/// How urgent the renewal of a certificate is.
pub open spec fn alarm_level(now_ms: u64, not_after_ms: u64) -> ExpiryAlarmLevel {
    if now_ms >= not_after_ms {
        ExpiryAlarmLevel::Expired
    } else if not_after_ms - now_ms <= 7 * DAY_MS {
        ExpiryAlarmLevel::Critical7d
    } else if not_after_ms - now_ms <= 14 * DAY_MS {
        ExpiryAlarmLevel::High14d
    } else if not_after_ms - now_ms <= 30 * DAY_MS {
        ExpiryAlarmLevel::Warning30d
    } else {
        ExpiryAlarmLevel::NoAlarm
    }
}

pub fn expiry_alarm_level(now_ms: u64, cert: &CertMetadata) -> (level: ExpiryAlarmLevel)
    ensures
        level == alarm_level(now_ms, cert.not_after_ms),
{
    if now_ms >= cert.not_after_ms {
        return ExpiryAlarmLevel::Expired;
    }
    let remaining_ms: u64 = cert.not_after_ms - now_ms;
    if remaining_ms <= 7 * DAY_MS {
        ExpiryAlarmLevel::Critical7d
    } else if remaining_ms <= 14 * DAY_MS {
        ExpiryAlarmLevel::High14d
    } else if remaining_ms <= 30 * DAY_MS {
        ExpiryAlarmLevel::Warning30d
    } else {
        ExpiryAlarmLevel::NoAlarm
    }
}

/// How far an alarm level is from no alarm.
pub open spec fn severity(level: ExpiryAlarmLevel) -> nat {
    match level {
        ExpiryAlarmLevel::NoAlarm => 0,
        ExpiryAlarmLevel::Warning30d => 1,
        ExpiryAlarmLevel::High14d => 2,
        ExpiryAlarmLevel::Critical7d => 3,
        ExpiryAlarmLevel::Expired => 4,
    }
}

/// The alarm for a certificate only gets more severe as time goes on.
pub proof fn law_alarm_only_rises(earlier_ms: u64, later_ms: u64, not_after_ms: u64)
    requires
        earlier_ms <= later_ms,
    ensures
        severity(alarm_level(earlier_ms, not_after_ms)) <= severity(
            alarm_level(later_ms, not_after_ms),
        ),
{
}

#[derive(Debug, Clone, PartialEq, Eq)]
pub struct RotationPlan {
    pub old_cert_id: String,
    pub new_cert_id: String,
    pub overlap_start_ms: u64,
    pub overlap_end_ms: u64,
    pub can_rotate_without_downtime: bool,
}

pub open spec fn later_of(a: u64, b: u64) -> u64 {
    if a >= b {
        a
    } else {
        b
    }
}

pub open spec fn earlier_of(a: u64, b: u64) -> u64 {
    if a <= b {
        a
    } else {
        b
    }
}

fn later(a: u64, b: u64) -> (r: u64)
    ensures
        r == later_of(a, b),
{
    if a >= b {
        a
    } else {
        b
    }
}

/// When both certificates are valid from now on, and whether that is long
/// enough to change over.
pub fn plan_rotation(
    now_ms: u64,
    old_cert: &CertMetadata,
    new_cert: &CertMetadata,
    min_overlap_ms: u64,
) -> (plan: RotationPlan)
    ensures
        plan.old_cert_id@ == old_cert.cert_id@,
        plan.new_cert_id@ == new_cert.cert_id@,
        plan.overlap_start_ms == later_of(
            later_of(old_cert.not_before_ms, new_cert.not_before_ms),
            now_ms,
        ),
        plan.overlap_end_ms == earlier_of(old_cert.not_after_ms, new_cert.not_after_ms),
        plan.can_rotate_without_downtime == (min_overlap_ms == 0 || plan.overlap_end_ms
            - plan.overlap_start_ms >= min_overlap_ms),
{
    let overlap_start: u64 = later(later(old_cert.not_before_ms, new_cert.not_before_ms), now_ms);
    let overlap_end: u64 = if old_cert.not_after_ms <= new_cert.not_after_ms {
        old_cert.not_after_ms
    } else {
        new_cert.not_after_ms
    };
    let overlap: u64 = overlap_end.saturating_sub(overlap_start);
    RotationPlan {
        old_cert_id: old_cert.cert_id.clone(),
        new_cert_id: new_cert.cert_id.clone(),
        overlap_start_ms: overlap_start,
        overlap_end_ms: overlap_end,
        can_rotate_without_downtime: overlap >= min_overlap_ms,
    }
}

#[derive(Debug, Clone, PartialEq, Eq)]
pub struct RevocationList {
    pub revoked_fingerprints_sha256_hex: Vec<String>,
}

impl View for RevocationList {
    type V = Seq<Seq<char>>;

    /// The revoked fingerprints in the order in which they came.
    open spec fn view(&self) -> Seq<Seq<char>> {
        self.revoked_fingerprints_sha256_hex@.map_values(|f: String| f@)
    }
}

impl Default for RevocationList {
    fn default() -> (list: RevocationList)
        ensures
            list@ == Seq::<Seq<char>>::empty(),
    {
        let list = RevocationList { revoked_fingerprints_sha256_hex: Vec::new() };
        assert(list@ =~= Seq::<Seq<char>>::empty());
        list
    }
}

impl RevocationList {
    fn holds(&self, fingerprint: &String) -> (held: bool)
        ensures
            held == self@.contains(fingerprint@),
    {
        let mut i: usize = 0;
        while i < self.revoked_fingerprints_sha256_hex.len()
            invariant
                i <= self.revoked_fingerprints_sha256_hex@.len(),
                forall|j: int| 0 <= j < i ==> #[trigger] self@[j] != fingerprint@,
            decreases self.revoked_fingerprints_sha256_hex@.len() - i,
        {
            if self.revoked_fingerprints_sha256_hex[i] == *fingerprint {
                assert(self@[i as int] == fingerprint@);
                return true;
            }
            i = i + 1;
        }
        assert(!self@.contains(fingerprint@));
        false
    }

    /// Adds a fingerprint, whose case does not matter, unless it is there.
    pub fn revoke_fingerprint(&mut self, fingerprint_sha256_hex: &str)
        ensures
            final(self)@ == with_revoked(old(self)@, fingerprint_sha256_hex@),
    {
        let fingerprint = lower_text(fingerprint_sha256_hex);
        if !self.holds(&fingerprint) {
            self.revoked_fingerprints_sha256_hex.push(fingerprint);
            assert(self@ =~= old(self)@.push(text::lowered(fingerprint_sha256_hex@)));
        }
    }

    pub fn is_revoked(&self, fingerprint_sha256_hex: &str) -> (revoked: bool)
        ensures
            revoked == self@.contains(text::lowered(fingerprint_sha256_hex@)),
    {
        self.holds(&lower_text(fingerprint_sha256_hex))
    }
}

/// The list after one more revocation.
pub open spec fn with_revoked(list: Seq<Seq<char>>, fingerprint: Seq<char>) -> Seq<Seq<char>> {
    if list.contains(text::lowered(fingerprint)) {
        list
    } else {
        list.push(text::lowered(fingerprint))
    }
}

/// A revoked fingerprint is found in whatever case it is asked for, and what was
/// revoked before stays revoked.
pub proof fn law_revocation_ignores_case_and_lasts(
    list: Seq<Seq<char>>,
    fingerprint: Seq<char>,
    asked: Seq<char>,
    other: Seq<char>,
)
    requires
        text::lowered(asked) == text::lowered(fingerprint),
    ensures
        with_revoked(list, fingerprint).contains(text::lowered(asked)),
        list.contains(other) ==> with_revoked(list, fingerprint).contains(other),
{
    let after = with_revoked(list, fingerprint);
    if !list.contains(text::lowered(fingerprint)) {
        assert(after[list.len() as int] == text::lowered(fingerprint));
        if list.contains(other) {
            let i = choose|i: int| 0 <= i < list.len() && list[i] == other;
            assert(after[i] == other);
        }
    }
}

} // verus!
