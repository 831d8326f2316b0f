//! What a backend is doing, what it reports while it loads, and what can go wrong with it.
use vstd::prelude::*;
use vstd::string::*;

use crate::duplicate::{duplicate_option, optional, Duplicate};
use crate::text::{cat2, cat3, cat4, cat5, decimal, decimal_text, digit, same_optional};

verus! {

/// Where a backend stands between being admitted and being gone.
#[derive(Debug, Clone, Copy, PartialEq, Eq, Structural)]
pub enum BackendLifecycle {
    Stopped,
    Loading,
    Running,
    Stopping,
    Failed,
}

impl BackendLifecycle {
    pub fn is_loading(self) -> (result: bool)
        ensures
            result == (self == BackendLifecycle::Loading),
    {
        self == BackendLifecycle::Loading
    }

    /// The name of the lifecycle as diagnostics show it.
    pub open spec fn name_text(self) -> Seq<char> {
        match self {
            BackendLifecycle::Stopped => "Stopped"@,
            BackendLifecycle::Loading => "Loading"@,
            BackendLifecycle::Running => "Running"@,
            BackendLifecycle::Stopping => "Stopping"@,
            BackendLifecycle::Failed => "Failed"@,
        }
    }

    pub fn name(self) -> (result: &'static str)
        ensures
            result@ == self.name_text(),
    {
        match self {
            BackendLifecycle::Stopped => "Stopped",
            BackendLifecycle::Loading => "Loading",
            BackendLifecycle::Running => "Running",
            BackendLifecycle::Stopping => "Stopping",
            BackendLifecycle::Failed => "Failed",
        }
    }
}

/// Generic model-load phases. These refine `BackendLifecycle::Loading`; they never replace the
/// lifecycle itself.
#[derive(Debug, Clone, Copy, PartialEq, Eq, Structural)]
pub enum BackendLoadPhase {
    Starting,
    SelectingRuntime,
    ResolvingSettings,
    AcquiringRuntime,
    PreparingModel,
    PreparingLaunch,
    SpawningBackend,
    LoadingModel,
    AllocatingContext,
    VerifyingStartup,
}

impl BackendLoadPhase {
    pub open spec fn label_text(self) -> Seq<char> {
        match self {
            BackendLoadPhase::Starting => "Starting model load"@,
            BackendLoadPhase::SelectingRuntime => "Selecting runtime"@,
            BackendLoadPhase::ResolvingSettings => "Resolving settings"@,
            BackendLoadPhase::AcquiringRuntime => "Acquiring runtime"@,
            BackendLoadPhase::PreparingModel => "Preparing model input"@,
            BackendLoadPhase::PreparingLaunch => "Preparing launch"@,
            BackendLoadPhase::SpawningBackend => "Spawning backend"@,
            BackendLoadPhase::LoadingModel => "Loading model"@,
            BackendLoadPhase::AllocatingContext => "Allocating context"@,
            BackendLoadPhase::VerifyingStartup => "Verifying startup"@,
        }
    }

    pub open spec fn failure_text(self) -> Seq<char> {
        match self {
            BackendLoadPhase::Starting => "starting the model load"@,
            BackendLoadPhase::SelectingRuntime => "selecting a runtime"@,
            BackendLoadPhase::ResolvingSettings => "resolving settings"@,
            BackendLoadPhase::AcquiringRuntime => "acquiring the runtime"@,
            BackendLoadPhase::PreparingModel => "preparing the model input"@,
            BackendLoadPhase::PreparingLaunch => "preparing the launch"@,
            BackendLoadPhase::SpawningBackend => "spawning the backend"@,
            BackendLoadPhase::LoadingModel => "loading the model"@,
            BackendLoadPhase::AllocatingContext => "allocating context"@,
            BackendLoadPhase::VerifyingStartup => "verifying startup"@,
        }
    }

    pub fn label(self) -> (result: &'static str)
        ensures
            result@ == self.label_text(),
    {
        match self {
            BackendLoadPhase::Starting => "Starting model load",
            BackendLoadPhase::SelectingRuntime => "Selecting runtime",
            BackendLoadPhase::ResolvingSettings => "Resolving settings",
            BackendLoadPhase::AcquiringRuntime => "Acquiring runtime",
            BackendLoadPhase::PreparingModel => "Preparing model input",
            BackendLoadPhase::PreparingLaunch => "Preparing launch",
            BackendLoadPhase::SpawningBackend => "Spawning backend",
            BackendLoadPhase::LoadingModel => "Loading model",
            BackendLoadPhase::AllocatingContext => "Allocating context",
            BackendLoadPhase::VerifyingStartup => "Verifying startup",
        }
    }

    pub fn failure_label(self) -> (result: &'static str)
        ensures
            result@ == self.failure_text(),
    {
        match self {
            BackendLoadPhase::Starting => "starting the model load",
            BackendLoadPhase::SelectingRuntime => "selecting a runtime",
            BackendLoadPhase::ResolvingSettings => "resolving settings",
            BackendLoadPhase::AcquiringRuntime => "acquiring the runtime",
            BackendLoadPhase::PreparingModel => "preparing the model input",
            BackendLoadPhase::PreparingLaunch => "preparing the launch",
            BackendLoadPhase::SpawningBackend => "spawning the backend",
            BackendLoadPhase::LoadingModel => "loading the model",
            BackendLoadPhase::AllocatingContext => "allocating context",
            BackendLoadPhase::VerifyingStartup => "verifying startup",
        }
    }
}

/// A determinate share of the load that is done.
#[derive(Debug, Clone, Copy, PartialEq, Eq, Structural)]
pub enum LoadFraction {
    /// A single-precision number that an adapter reported, as its bits.
    Reported(u32),
    /// The quotient of two counts, the first no larger than the second.
    Counted(u64, u64),
}

impl LoadFraction {
    /// Whether the number is finite and between zero and one. The bits of such numbers are those of
    /// zero to one in order, and those of negative zero.
    pub open spec fn trustworthy(self) -> bool {
        match self {
            LoadFraction::Reported(bits) => bits <= 0x3f80_0000 || bits == 0x8000_0000,
            LoadFraction::Counted(current, total) => total > 0 && current <= total,
        }
    }

    pub fn is_trustworthy(self) -> (result: bool)
        ensures
            result == self.trustworthy(),
    {
        match self {
            LoadFraction::Reported(bits) => bits <= 0x3f80_0000 || bits == 0x8000_0000,
            LoadFraction::Counted(current, total) => total > 0 && current <= total,
        }
    }

    /// Whether two fractions are the same number. Negative zero is zero, and what is no number is the
    /// same as nothing.
    pub open spec fn equals(self, other: LoadFraction) -> bool {
        match (self, other) {
            (LoadFraction::Reported(a), LoadFraction::Reported(b)) => (a == b && a % 0x8000_0000
                <= 0x7f80_0000) || (is_zero(a) && is_zero(b)),
            (LoadFraction::Counted(a, b), LoadFraction::Counted(c, d)) => a == c && b == d,
            (LoadFraction::Reported(bits), LoadFraction::Counted(current, total)) => is_quotient(
                bits,
                current,
                total,
            ),
            (LoadFraction::Counted(current, total), LoadFraction::Reported(bits)) => is_quotient(
                bits,
                current,
                total,
            ),
        }
    }

    fn same_number(self, other: LoadFraction) -> (result: bool)
        ensures
            result == self.equals(other),
    {
        match (self, other) {
            (LoadFraction::Reported(a), LoadFraction::Reported(b)) => (a == b && a % 0x8000_0000
                <= 0x7f80_0000) || ((a == 0 || a == 0x8000_0000) && (b == 0 || b == 0x8000_0000)),
            (LoadFraction::Counted(a, b), LoadFraction::Counted(c, d)) => a == c && b == d,
            (LoadFraction::Reported(bits), LoadFraction::Counted(current, total)) => gives_quotient(
                bits,
                current,
                total,
            ),
            (LoadFraction::Counted(current, total), LoadFraction::Reported(bits)) => gives_quotient(
                bits,
                current,
                total,
            ),
        }
    }
}

/// The bits of zero and of negative zero.
pub open spec fn is_zero(bits: u32) -> bool {
    bits == 0 || bits == 0x8000_0000
}

/// A number doubled some times.
pub open spec fn doubled(value: nat, times: nat) -> nat
    decreases times,
{
    if times == 0 {
        value
    } else {
        2 * doubled(value, (times - 1) as nat)
    }
}

/// The distance between the single-precision numbers around a count, from some distance on: up to 2^24
/// they hold each count, and beyond each power of two every other number less.
pub open spec fn spacing(count: nat, unit: nat) -> nat
    decreases
            if count > unit {
                count - unit
            } else {
                0
            },
{
    if unit == 0 || count < 0x100_0000 * unit {
        unit
    } else {
        spacing(count, 2 * unit)
    }
}

/// The single-precision number nearest to a count; of two that are as near, the one whose significand
/// is even.
pub open spec fn single(count: u64) -> nat {
    let unit = spacing(count as nat, 1);
    let low = count as nat / unit;
    let rest = count as nat % unit;
    if 2 * rest > unit || (2 * rest == unit && low % 2 == 1) {
        (low + 1) * unit
    } else {
        low * unit
    }
}

/// Whether a normal single-precision number no larger than one, given by its bits, is the one nearest
/// to a quotient; of two that are as near, the one whose significand is even. With its significand
/// and the halvings that scale it the number is `significand / 2^halvings`. Below a power of two
/// numbers lie twice as dense as above it.
pub open spec fn is_nearest(bits: u32, current: nat, total: nat) -> bool {
    let significand: int = 0x80_0000 + bits % 0x80_0000;
    let halvings: int = 150 - bits / 0x80_0000;
    let there: int = significand * total;
    let wanted: int = doubled(current, halvings as nat) as int;
    if wanted >= there {
        2 * (wanted - there) < total || (2 * (wanted - there) == total && significand % 2 == 0)
    } else if significand == 0x80_0000 {
        4 * (there - wanted) <= total
    } else {
        2 * (there - wanted) < total || (2 * (there - wanted) == total && significand % 2 == 0)
    }
}

/// Whether a single-precision number is what dividing two counts in single precision gives: the one
/// nearest to the quotient of the numbers nearest to the counts.
pub open spec fn is_quotient(bits: u32, current: u64, total: u64) -> bool {
    if total == 0 || current > total {
        false
    } else if current == 0 {
        is_zero(bits)
    } else {
        0x80_0000 <= bits <= 0x3f80_0000 && is_nearest(bits, single(current), single(total))
    }
}

fn to_single(count: u64) -> (result: u128)
    ensures
        result == single(count),
        result <= 0x2_0000_0000_0000_0000,
        count > 0 ==> result > 0,
{
    let whole: u128 = count as u128;
    let mut unit: u128 = 1;
    while whole >= 0x100_0000 * unit
        invariant
            1 <= unit <= 0x1_0000_0000_0000,
            whole == count,
            unit == 1 || 0x80_0000 * unit <= whole,
            spacing(count as nat, 1) == spacing(count as nat, unit as nat),
        decreases whole - unit,
    {
        unit = 2 * unit;
    }
    let low: u128 = whole / unit;
    let rest: u128 = whole % unit;
    proof {
        vstd::arithmetic::div_mod::lemma_fundamental_div_mod(whole as int, unit as int);
        assert((low + 1) * unit == unit * low + unit && low * unit == unit * low)
            by (nonlinear_arith);
        if unit > 1 {
            assert(low > 0) by (nonlinear_arith)
                requires
                    0x80_0000 * unit <= whole,
                    whole == unit * low + rest,
                    rest < unit,
            ;
            assert(unit * low >= unit) by (nonlinear_arith)
                requires
                    low > 0,
                    unit > 1,
            ;
        }
    }
    if 2 * rest > unit || (2 * rest == unit && low % 2 == 1) {
        (low + 1) * unit
    } else {
        low * unit
    }
}

proof fn lemma_doubled_grows(value: nat, few: nat, many: nat)
    requires
        few <= many,
    ensures
        doubled(value, few) <= doubled(value, many),
    decreases many,
{
    if few < many {
        lemma_doubled_grows(value, few, (many - 1) as nat);
    }
}

fn gives_quotient(bits: u32, current: u64, total: u64) -> (result: bool)
    ensures
        result == is_quotient(bits, current, total),
{
    if total == 0 || current > total {
        return false;
    }
    if current == 0 {
        return bits == 0 || bits == 0x8000_0000;
    }
    if bits < 0x80_0000 || bits > 0x3f80_0000 {
        return false;
    }
    let part: u128 = to_single(current);
    let whole: u128 = to_single(total);
    let significand: u128 = (0x80_0000 + bits % 0x80_0000) as u128;
    let halvings: u32 = 150 - bits / 0x80_0000;
    proof {
        assert(significand * whole <= 0xff_ffff * 0x2_0000_0000_0000_0000) by (nonlinear_arith)
            requires
                0 <= significand <= 0xff_ffff,
                0 <= whole <= 0x2_0000_0000_0000_0000,
        ;
    }
    let there: u128 = significand * whole;
    let mut wanted: u128 = part;
    let mut done: u32 = 0;
    while done < halvings && wanted < 0x10_0000_0000_0000_0000_0000_0000
        invariant
            done <= halvings,
            wanted == doubled(part as nat, done as nat),
            wanted < 0x20_0000_0000_0000_0000_0000_0000,
        decreases halvings - done,
    {
        wanted = wanted * 2;
        done += 1;
    }
    if done < halvings {
        proof {
            lemma_doubled_grows(part as nat, done as nat, halvings as nat);
        }
        return false;
    }
    if wanted >= there {
        let off: u128 = 2 * (wanted - there);
        off < whole || (off == whole && significand % 2 == 0)
    } else if significand == 0x80_0000 {
        4 * (there - wanted) <= whole
    } else {
        let off: u128 = 2 * (there - wanted);
        off < whole || (off == whole && significand % 2 == 0)
    }
}

/// Engine-neutral model-load progress. A determinate fraction is present only when the exact
/// runtime exposes trustworthy measurable progress; phase transitions alone never invent a
/// percentage.
#[derive(Debug)]
pub struct BackendLoadProgress {
    pub phase: BackendLoadPhase,
    pub fraction: Option<LoadFraction>,
    pub current: Option<u64>,
    pub total: Option<u64>,
    pub message: Option<String>,
}

/// The model of a load progress.
#[verifier::ext_equal]
pub struct ProgressView {
    pub phase: BackendLoadPhase,
    pub fraction: Option<LoadFraction>,
    pub current: Option<u64>,
    pub total: Option<u64>,
    pub message: Option<Seq<char>>,
}

impl View for BackendLoadProgress {
    type V = ProgressView;

    open spec fn view(&self) -> ProgressView {
        ProgressView {
            phase: self.phase,
            fraction: self.fraction,
            current: self.current,
            total: self.total,
            message: optional(self.message),
        }
    }
}

impl ProgressView {
    /// A phase with nothing measured.
    pub open spec fn indeterminate(phase: BackendLoadPhase) -> ProgressView {
        ProgressView { phase, fraction: None, current: None, total: None, message: None }
    }

    /// Counts that fit together: both present, of a positive total that the current one does not
    /// exceed.
    pub open spec fn counted(self) -> bool {
        self.current is Some && self.total is Some && self.total->0 > 0 && self.current->0
            <= self.total->0
    }

    /// Counts that contradict each other.
    pub open spec fn contradictory(self) -> bool {
        self.current is Some && self.total is Some && (self.total->0 == 0 || self.current->0
            > self.total->0)
    }

    /// The observation without numbers that cannot be trusted: inconsistent counts and a fraction
    /// outside zero to one are dropped. Counts that fit together give the fraction where none is
    /// left.
    pub open spec fn sanitized(self) -> ProgressView {
        let reported = if !self.contradictory() && self.fraction is Some
            && self.fraction->0.trustworthy() {
            self.fraction
        } else {
            None
        };
        ProgressView {
            phase: self.phase,
            message: self.message,
            current: if self.counted() {
                self.current
            } else {
                None
            },
            total: if self.counted() {
                self.total
            } else {
                None
            },
            fraction: if reported is Some {
                reported
            } else if self.counted() {
                Some(LoadFraction::Counted(self.current->0, self.total->0))
            } else {
                None
            },
        }
    }

    /// Nothing in the observation is untrustworthy.
    pub open spec fn trustworthy(self) -> bool {
        &&& self.fraction is Some ==> self.fraction->0.trustworthy()
        &&& self.current is Some <==> self.total is Some
        &&& self.current is Some ==> self.counted()
        &&& self.current is Some ==> self.fraction is Some
    }
}

/// Sanitizing leaves only trustworthy numbers, and sanitizing again changes nothing.
pub proof fn law_sanitized_progress_is_trustworthy(progress: ProgressView)
    ensures
        progress.sanitized().trustworthy(),
        progress.sanitized().sanitized() == progress.sanitized(),
        progress.sanitized().phase == progress.phase,
        progress.sanitized().message == progress.message,
{
}

/// A phase transition alone never invents a fraction.
pub proof fn law_phase_alone_invents_no_fraction(progress: ProgressView)
    requires
        progress.fraction is None,
        progress.current is None || progress.total is None,
    ensures
        progress.sanitized().fraction is None,
        progress.sanitized().current is None,
        progress.sanitized().total is None,
{
}

impl BackendLoadProgress {
    pub fn indeterminate(phase: BackendLoadPhase) -> (result: BackendLoadProgress)
        ensures
            result@ == ProgressView::indeterminate(phase),
    {
        BackendLoadProgress { phase, fraction: None, current: None, total: None, message: None }
    }

    pub fn with_message(phase: BackendLoadPhase, message: String) -> (result: BackendLoadProgress)
        ensures
            result@ == (ProgressView {
                message: Some(message@),
                ..ProgressView::indeterminate(phase)
            }),
    {
        BackendLoadProgress {
            phase,
            fraction: None,
            current: None,
            total: None,
            message: Some(message),
        }
    }

    /// Rejects untrustworthy numeric evidence instead of presenting it: a non-finite or
    /// out-of-range fraction and inconsistent unit counts are dropped, degrading the observation to
    /// an indeterminate phase.
    pub fn sanitized(self) -> (result: BackendLoadProgress)
        ensures
            result@ == self@.sanitized(),
    {
        let mut fraction = self.fraction;
        let mut current = self.current;
        let mut total = self.total;
        if let (Some(done), Some(all)) = (current, total) {
            if all == 0 || done > all {
                current = None;
                total = None;
                fraction = None;
            }
        }
        if current.is_some() != total.is_some() {
            current = None;
            total = None;
        }
        if let Some(share) = fraction {
            if !share.is_trustworthy() {
                fraction = None;
            }
        }
        if fraction.is_none() {
            if let (Some(done), Some(all)) = (current, total) {
                fraction = Some(LoadFraction::Counted(done, all));
            }
        }
        BackendLoadProgress { phase: self.phase, fraction, current, total, message: self.message }
    }
}

impl ProgressView {
    /// Whether two observations say the same: they are of one phase with the same counts and message,
    /// and their fractions are the same number.
    pub open spec fn says(self, other: ProgressView) -> bool {
        &&& self.phase == other.phase
        &&& self.current == other.current
        &&& self.total == other.total
        &&& self.message == other.message
        &&& match (self.fraction, other.fraction) {
            (Some(one), Some(two)) => one.equals(two),
            (None, None) => true,
            _ => false,
        }
    }
}

impl BackendLoadProgress {
    /// Whether two observations say the same.
    pub fn same_as(&self, other: &BackendLoadProgress) -> (result: bool)
        ensures
            result == self@.says(other@),
    {
        let number: bool = match (self.fraction, other.fraction) {
            (Some(one), Some(two)) => one.same_number(two),
            (None, None) => true,
            _ => false,
        };
        number && self.phase == other.phase && self.current == other.current && self.total
            == other.total && same_optional(&self.message, &other.message)
    }
}

impl Duplicate for BackendLoadProgress {
    fn duplicate(&self) -> (result: BackendLoadProgress) {
        BackendLoadProgress {
            phase: self.phase,
            fraction: self.fraction,
            current: self.current,
            total: self.total,
            message: duplicate_option(&self.message),
        }
    }
}

/// Whether a backend was asked for by a request or by an operator.
#[derive(Debug, Clone, Copy, PartialEq, Eq, Structural)]
pub enum BackendResidency {
    Jit,
    Pinned,
}

/// What a Model Profile is for.
#[derive(Debug, Clone, Copy, PartialEq, Eq, Structural)]
pub enum ModelRole {
    Primary,
    Auxiliary,
}

#[derive(Debug, Clone, Copy, PartialEq, Eq, Structural)]
pub enum RuntimeNoticeLevel {
    Info,
    Warning,
    Error,
}

/// One line of the manager's recent history.
#[derive(Debug)]
pub struct RuntimeNotice {
    pub timestamp_unix: i64,
    pub level: RuntimeNoticeLevel,
    pub message: String,
}

#[verifier::ext_equal]
pub struct NoticeView {
    pub timestamp_unix: i64,
    pub level: RuntimeNoticeLevel,
    pub message: Seq<char>,
}

impl View for RuntimeNotice {
    type V = NoticeView;

    open spec fn view(&self) -> NoticeView {
        NoticeView {
            timestamp_unix: self.timestamp_unix,
            level: self.level,
            message: self.message@,
        }
    }
}

impl Duplicate for RuntimeNotice {
    fn duplicate(&self) -> (result: RuntimeNotice) {
        RuntimeNotice {
            timestamp_unix: self.timestamp_unix,
            level: self.level,
            message: self.message.clone(),
        }
    }
}

/// How long things may take and how many idle backends may stay. Times are in milliseconds.
#[derive(Debug, Clone, Copy)]
pub struct RuntimeManagerOptions {
    pub startup_timeout: u64,
    pub health_poll_interval: u64,
    pub jit_enabled: bool,
    pub primary_idle_ttl: u64,
    pub auxiliary_idle_ttl: u64,
    pub max_idle_auxiliary_backends: usize,
}

impl Default for RuntimeManagerOptions {
    fn default() -> (result: RuntimeManagerOptions)
        ensures
            result == (RuntimeManagerOptions {
                startup_timeout: 300_000,
                health_poll_interval: 250,
                jit_enabled: true,
                primary_idle_ttl: 3_600_000,
                auxiliary_idle_ttl: 300_000,
                max_idle_auxiliary_backends: 2,
            }),
    {
        RuntimeManagerOptions {
            startup_timeout: 300_000,
            health_poll_interval: 250,
            jit_enabled: true,
            primary_idle_ttl: 3_600_000,
            auxiliary_idle_ttl: 300_000,
            max_idle_auxiliary_backends: 2,
        }
    }
}

/// The whole seconds of a time in milliseconds.
pub open spec fn whole_seconds(milliseconds: u64) -> int {
    (milliseconds / 1000) as int
}

pub fn duration_seconds_i64(milliseconds: u64) -> (result: i64)
    ensures
        result == whole_seconds(milliseconds),
{
    (milliseconds / 1000) as i64
}

/// The fraction digits of a number of thousandths, without trailing zeros.
pub open spec fn thousandths(n: nat) -> Seq<char> {
    if n % 100 == 0 {
        seq![digit(n / 100)]
    } else if n % 10 == 0 {
        seq![digit(n / 100), digit(n / 10 % 10)]
    } else {
        seq![digit(n / 100), digit(n / 10 % 10), digit(n % 10)]
    }
}

/// A time in the largest unit that keeps it at one or more: seconds, or milliseconds, or no
/// nanoseconds at all.
pub open spec fn duration_text(milliseconds: nat) -> Seq<char> {
    if milliseconds >= 1000 {
        if milliseconds % 1000 == 0 {
            decimal(milliseconds / 1000) + "s"@
        } else {
            decimal(milliseconds / 1000) + "."@ + thousandths(milliseconds % 1000) + "s"@
        }
    } else if milliseconds > 0 {
        decimal(milliseconds) + "ms"@
    } else {
        "0ns"@
    }
}

fn digit_char(n: u64) -> (result: char)
    requires
        n < 10,
    ensures
        result == digit(n as nat),
{
    (48u8 + n as u8) as char
}

pub fn show_duration(milliseconds: u64) -> (result: String)
    ensures
        result@ == duration_text(milliseconds as nat),
{
    if milliseconds >= 1000 {
        let rest: u64 = milliseconds % 1000;
        let seconds = decimal_text(milliseconds / 1000);
        if rest == 0 {
            cat2(seconds.as_str(), "s")
        } else {
            let mut digits = String::new();
            digits.push(digit_char(rest / 100));
            if rest % 100 != 0 {
                digits.push(digit_char(rest / 10 % 10));
                if rest % 10 != 0 {
                    digits.push(digit_char(rest % 10));
                }
            }
            proof {
                assert(digits@ =~= thousandths(rest as nat));
            }
            cat4(seconds.as_str(), ".", digits.as_str(), "s")
        }
    } else if milliseconds > 0 {
        let count = decimal_text(milliseconds);
        cat2(count.as_str(), "ms")
    } else {
        "0ns".to_owned()
    }
}

/// Why an operation on a backend failed.
#[derive(Debug)]
pub enum RuntimeError {
    ModelProfileNotFound(String),
    BoundModelMissing { profile_id: String, model_id: String },
    ModelNotFound(String),
    ModelProfileNotLoaded(String),
    Busy(BackendLifecycle),
    ShuttingDown,
    Incompatible { model_id: String, reason: String },
    EngineUnavailable(String),
    StartupFailed(String),
    /// The startup took longer than this many milliseconds.
    StartupTimedOut(u64),
    BackendCrashed(String),
    InvalidGenerationSettings(String),
    Inference(String),
    InferenceTimedOut(String),
    InferenceUnavailable(String),
    AuxiliaryLoadFailed { profile_id: String, reason: String },
    Operation(String),
}

/// The model of an error.
#[verifier::ext_equal]
pub enum ErrorView {
    ModelProfileNotFound(Seq<char>),
    BoundModelMissing { profile_id: Seq<char>, model_id: Seq<char> },
    ModelNotFound(Seq<char>),
    ModelProfileNotLoaded(Seq<char>),
    Busy(BackendLifecycle),
    ShuttingDown,
    Incompatible { model_id: Seq<char>, reason: Seq<char> },
    EngineUnavailable(Seq<char>),
    StartupFailed(Seq<char>),
    StartupTimedOut(u64),
    BackendCrashed(Seq<char>),
    InvalidGenerationSettings(Seq<char>),
    Inference(Seq<char>),
    InferenceTimedOut(Seq<char>),
    InferenceUnavailable(Seq<char>),
    AuxiliaryLoadFailed { profile_id: Seq<char>, reason: Seq<char> },
    Operation(Seq<char>),
}

impl View for RuntimeError {
    type V = ErrorView;

    open spec fn view(&self) -> ErrorView {
        match self {
            RuntimeError::ModelProfileNotFound(id) => ErrorView::ModelProfileNotFound(id@),
            RuntimeError::BoundModelMissing { profile_id, model_id } => {
                ErrorView::BoundModelMissing { profile_id: profile_id@, model_id: model_id@ }
            },
            RuntimeError::ModelNotFound(id) => ErrorView::ModelNotFound(id@),
            RuntimeError::ModelProfileNotLoaded(id) => ErrorView::ModelProfileNotLoaded(id@),
            RuntimeError::Busy(lifecycle) => ErrorView::Busy(*lifecycle),
            RuntimeError::ShuttingDown => ErrorView::ShuttingDown,
            RuntimeError::Incompatible { model_id, reason } => ErrorView::Incompatible {
                model_id: model_id@,
                reason: reason@,
            },
            RuntimeError::EngineUnavailable(detail) => ErrorView::EngineUnavailable(detail@),
            RuntimeError::StartupFailed(detail) => ErrorView::StartupFailed(detail@),
            RuntimeError::StartupTimedOut(limit) => ErrorView::StartupTimedOut(*limit),
            RuntimeError::BackendCrashed(detail) => ErrorView::BackendCrashed(detail@),
            RuntimeError::InvalidGenerationSettings(detail) => {
                ErrorView::InvalidGenerationSettings(detail@)
            },
            RuntimeError::Inference(detail) => ErrorView::Inference(detail@),
            RuntimeError::InferenceTimedOut(detail) => ErrorView::InferenceTimedOut(detail@),
            RuntimeError::InferenceUnavailable(detail) => ErrorView::InferenceUnavailable(detail@),
            RuntimeError::AuxiliaryLoadFailed { profile_id, reason } => {
                ErrorView::AuxiliaryLoadFailed { profile_id: profile_id@, reason: reason@ }
            },
            RuntimeError::Operation(detail) => ErrorView::Operation(detail@),
        }
    }
}

impl ErrorView {
    /// The sentence that an error is shown as.
    pub open spec fn text(self) -> Seq<char> {
        match self {
            ErrorView::ModelProfileNotFound(id) => "Model Profile `"@ + id + "` does not exist"@,
            ErrorView::BoundModelMissing { profile_id, model_id } => "Model Profile `"@ + profile_id
                + "` is unavailable because bound model `"@ + model_id + "` is missing"@,
            ErrorView::ModelNotFound(id) => "model `"@ + id
                + "` does not exist in the discovered registry"@,
            ErrorView::ModelProfileNotLoaded(id) => "Model Profile `"@ + id + "` is not loaded"@,
            ErrorView::Busy(lifecycle) => "the backend is currently "@ + lifecycle.name_text(),
            ErrorView::ShuttingDown => "the runtime is shutting down"@,
            ErrorView::Incompatible { model_id, reason } => {
                "no registered engine is compatible with model `"@ + model_id + "`: "@ + reason
            },
            ErrorView::EngineUnavailable(detail) => {
                "no compatible installed engine is available: "@ + detail
            },
            ErrorView::StartupFailed(detail) => "engine failed during startup: "@ + detail,
            ErrorView::StartupTimedOut(limit) => "engine startup timed out after "@ + duration_text(
                limit as nat,
            ),
            ErrorView::BackendCrashed(detail) => "the loaded backend crashed: "@ + detail,
            ErrorView::InvalidGenerationSettings(detail) => "invalid generation settings: "@
                + detail,
            ErrorView::Inference(detail) => "backend inference failed: "@ + detail,
            ErrorView::InferenceTimedOut(detail) => "backend inference timed out: "@ + detail,
            ErrorView::InferenceUnavailable(detail) => "backend inference is unavailable: "@
                + detail,
            ErrorView::AuxiliaryLoadFailed { profile_id, reason } => "auxiliary Model Profile `"@
                + profile_id + "` could not be loaded without evicting a leased primary: "@
                + reason,
            ErrorView::Operation(detail) => "runtime operation failed: "@ + detail,
        }
    }
}

impl RuntimeError {
    /// The sentence that the error is shown as.
    pub fn message(&self) -> (result: String)
        ensures
            result@ == self@.text(),
    {
        match self {
            RuntimeError::ModelProfileNotFound(id) => cat3(
                "Model Profile `",
                id.as_str(),
                "` does not exist",
            ),
            RuntimeError::BoundModelMissing { profile_id, model_id } => cat5(
                "Model Profile `",
                profile_id.as_str(),
                "` is unavailable because bound model `",
                model_id.as_str(),
                "` is missing",
            ),
            RuntimeError::ModelNotFound(id) => cat3(
                "model `",
                id.as_str(),
                "` does not exist in the discovered registry",
            ),
            RuntimeError::ModelProfileNotLoaded(id) => cat3(
                "Model Profile `",
                id.as_str(),
                "` is not loaded",
            ),
            RuntimeError::Busy(lifecycle) => cat2("the backend is currently ", lifecycle.name()),
            RuntimeError::ShuttingDown => "the runtime is shutting down".to_owned(),
            RuntimeError::Incompatible { model_id, reason } => cat4(
                "no registered engine is compatible with model `",
                model_id.as_str(),
                "`: ",
                reason.as_str(),
            ),
            RuntimeError::EngineUnavailable(detail) => cat2(
                "no compatible installed engine is available: ",
                detail.as_str(),
            ),
            RuntimeError::StartupFailed(detail) => cat2(
                "engine failed during startup: ",
                detail.as_str(),
            ),
            RuntimeError::StartupTimedOut(limit) => {
                let limit = show_duration(*limit);
                cat2("engine startup timed out after ", limit.as_str())
            },
            RuntimeError::BackendCrashed(detail) => cat2(
                "the loaded backend crashed: ",
                detail.as_str(),
            ),
            RuntimeError::InvalidGenerationSettings(detail) => cat2(
                "invalid generation settings: ",
                detail.as_str(),
            ),
            RuntimeError::Inference(detail) => cat2("backend inference failed: ", detail.as_str()),
            RuntimeError::InferenceTimedOut(detail) => cat2(
                "backend inference timed out: ",
                detail.as_str(),
            ),
            RuntimeError::InferenceUnavailable(detail) => cat2(
                "backend inference is unavailable: ",
                detail.as_str(),
            ),
            RuntimeError::AuxiliaryLoadFailed { profile_id, reason } => cat4(
                "auxiliary Model Profile `",
                profile_id.as_str(),
                "` could not be loaded without evicting a leased primary: ",
                reason.as_str(),
            ),
            RuntimeError::Operation(detail) => cat2("runtime operation failed: ", detail.as_str()),
        }
    }
}

/// Counts are kept where both are there, the total is above zero and the current one is not above it; a
/// reported fraction from zero to one is kept unless the counts contradict each other; and where there is
/// no such fraction, counts that are kept give one.
pub proof fn law_sound_numbers_are_kept(progress: ProgressView)
    ensures
        ({
            let kept = progress.sanitized();
            let both = progress.current is Some && progress.total is Some;
            let counted = both && progress.total->0 > 0 && progress.current->0 <= progress.total->0;
            let usable = progress.fraction is Some && progress.fraction->0.trustworthy() && (!both
                || counted);
            &&& counted ==> kept.current == progress.current && kept.total == progress.total
            &&& !counted ==> kept.current is None && kept.total is None
            &&& usable ==> kept.fraction == progress.fraction
            &&& !usable && counted ==> kept.fraction == Some(
                LoadFraction::Counted(progress.current->0, progress.total->0),
            )
            &&& !usable && !counted ==> kept.fraction is None
        }),
        LoadFraction::Reported(0).trustworthy(),
        LoadFraction::Reported(0x3f80_0000).trustworthy(),
        !LoadFraction::Reported(0x3f80_0001).trustworthy(),
{
}

/// A time is told in whole seconds, rounded down.
pub proof fn law_seconds_are_rounded_down(seconds: u64, milliseconds: u64)
    requires
        milliseconds < 1000,
        seconds * 1000 + milliseconds <= u64::MAX,
    ensures
        whole_seconds((seconds * 1000 + milliseconds) as u64) == seconds,
        seconds > 0 ==> duration_text((seconds * 1000) as nat) == decimal(seconds as nat) + "s"@,
        seconds > 0 && milliseconds > 0 ==> duration_text((seconds * 1000 + milliseconds) as nat)
            == decimal(seconds as nat) + "."@ + thousandths(milliseconds as nat) + "s"@,
        milliseconds > 0 ==> duration_text(milliseconds as nat) == decimal(milliseconds as nat)
            + "ms"@,
{
}

/// Thousandths are written with as few digits as tell them, the tenths first.
pub proof fn law_thousandths_are_written(tenths: nat, hundredths: nat, rest: nat)
    requires
        tenths < 10,
        hundredths < 10,
        rest < 10,
    ensures
        thousandths(100 * tenths) == seq![digit(tenths)],
        hundredths > 0 ==> thousandths(100 * tenths + 10 * hundredths) == seq![
            digit(tenths),
            digit(hundredths),
        ],
        rest > 0 ==> thousandths(100 * tenths + 10 * hundredths + rest) == seq![
            digit(tenths),
            digit(hundredths),
            digit(rest),
        ],
{
}

/// Reports of a phase alone are of that phase, without numbers and words.
pub proof fn law_phases_alone_say_nothing_else(phase: BackendLoadPhase, other: ProgressView)
    ensures
        ProgressView::indeterminate(phase).phase == phase,
        ProgressView::indeterminate(phase).fraction is None,
        ProgressView::indeterminate(phase).message is None,
        ProgressView::indeterminate(phase).says(other) <==> other == ProgressView::indeterminate(
            phase,
        ),
{
}

} // verus!
