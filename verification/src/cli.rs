//! The command-line tool's settings, defaults and operation building.
use vstd::prelude::*;
use crate::pipeline::{target_plan, Analysis};
use crate::selector::{ms_to_cs, SegmentOpsExt};
use crate::types::{ops_where, EncodableFrame, Segment, SegmentOp, SegmentOps};

verus! {

broadcast use vstd::std_specs::hash::group_hash_axioms;

/// Hash algorithm choice for the CLI.
#[derive(Debug, Clone, Copy, PartialEq, Eq, Structural)]
pub enum HasherType {
    /// Difference hash (fast, good for duplicates).
    Dhash,
    /// Perceptual hash (robust to transformations).
    Phash,
    /// Block hash (balanced).
    Blockhash,
}

impl Default for HasherType {
    fn default() -> (r: Self)
        ensures
            r == HasherType::Dhash,
    {
        HasherType::Dhash
    }
}

/// Optimization presets.
#[derive(Debug, Clone, Copy, PartialEq, Eq, Structural)]
pub enum Preset {
    /// Light optimization: cap pauses to 200ms.
    Fast,
    /// Moderate optimization: cap pauses to 300ms, speed up pauses 1.5x.
    Balanced,
    /// Heavy optimization: collapse pauses to 100ms, speed up everything 1.5x.
    Aggressive,
}

/// Arguments of the info command.
#[derive(Debug, Clone)]
pub struct InfoArgs {
    /// Input GIF file.
    pub input: String,
}

/// Arguments of the analyze command.
#[derive(Debug, Clone)]
pub struct AnalyzeArgs {
    /// Input GIF file.
    pub input: String,
    /// Similarity threshold (lower = stricter).
    pub threshold: u32,
    /// Hash algorithm to use.
    pub hasher: HasherType,
    /// Write output to file instead of stdout.
    pub output: Option<String>,
    /// Only show segment summary.
    pub segments_only: bool,
    /// Show per-frame details.
    pub frames: bool,
}

/// The operations the optimize command asks for; speed factors are exact fractions
/// `(numerator, denominator)`.
#[derive(Debug, Clone, Copy)]
pub struct OptimizeOptions {
    /// Optimization preset, applied first.
    pub preset: Option<Preset>,
    /// Cap pauses to this duration (ms).
    pub cap_pauses: Option<u32>,
    /// Collapse pauses to exactly this duration (ms).
    pub collapse_pauses: Option<u32>,
    /// Remove pauses longer than this duration (ms).
    pub remove_long: Option<u32>,
    /// Speed up pauses by this factor.
    pub speed_up_pauses: Option<(u32, u32)>,
    /// Speed up everything by this factor.
    pub speed_up_all: Option<(u32, u32)>,
    /// Target total duration (ms).
    pub target_duration: Option<u64>,
}

/// Why the requested operations cannot be built.
#[derive(Debug, Clone, Copy, PartialEq, Eq, Structural)]
pub enum BuildError {
    /// The target duration cannot be reached: the non-static content is too long.
    TargetUnreachable {
        /// The requested duration (ms).
        target_ms: u64,
    },
}

/// The static segments.
pub open spec fn pause_seq(segments: Seq<Segment>) -> Seq<Segment> {
    segments.filter(|s: Segment| s.is_static)
}

/// Collapse the segments longer than `ms` to `ms`.
pub open spec fn cap_map(segments: Seq<Segment>, ms: u32) -> Map<usize, SegmentOp> {
    ops_where(
        segments,
        |s: Segment| s.total_duration_cs > ms_to_cs(ms),
        |s: Segment| SegmentOp::Collapse { delay_cs: ms_to_cs(ms) },
    )
}

/// Give every segment the operation `op`.
pub open spec fn each_map(segments: Seq<Segment>, op: SegmentOp) -> Map<usize, SegmentOp> {
    ops_where(segments, |s: Segment| true, |s: Segment| op)
}

/// The operations of a preset.
pub open spec fn preset_map(preset: Option<Preset>, segments: Seq<Segment>) -> Map<usize, SegmentOp> {
    match preset {
        None => Map::empty(),
        Some(Preset::Fast) => cap_map(pause_seq(segments), 200),
        Some(Preset::Balanced) => cap_map(pause_seq(segments), 300).union_prefer_right(
            each_map(pause_seq(segments), SegmentOp::Scale { numerator: 2, denominator: 3 }),
        ),
        Some(Preset::Aggressive) => each_map(
            pause_seq(segments),
            SegmentOp::Collapse { delay_cs: ms_to_cs(100) },
        ).union_prefer_right(each_map(segments, SegmentOp::Scale { numerator: 2, denominator: 3 })),
    }
}

/// Merge `m` with `extra` when the option is set.
pub open spec fn then_merge(m: Map<usize, SegmentOp>, set: bool, extra: Map<usize, SegmentOp>) -> Map<usize, SegmentOp> {
    if set {
        m.union_prefer_right(extra)
    } else {
        m
    }
}

/// The operations the options ask for, before the target duration: the preset, then each
/// individual option overriding what came before.
pub open spec fn options_map(o: OptimizeOptions, segments: Seq<Segment>) -> Map<usize, SegmentOp> {
    let p = pause_seq(segments);
    let m0 = preset_map(o.preset, segments);
    let m1 = then_merge(m0, o.cap_pauses.is_some(), cap_map(p, o.cap_pauses.unwrap()));
    let m2 = then_merge(
        m1,
        o.collapse_pauses.is_some(),
        each_map(p, SegmentOp::Collapse { delay_cs: ms_to_cs(o.collapse_pauses.unwrap()) }),
    );
    let m3 = then_merge(
        m2,
        o.remove_long.is_some(),
        each_map(
            p.filter(|s: Segment| s.total_duration_cs > ms_to_cs(o.remove_long.unwrap())),
            SegmentOp::Remove,
        ),
    );
    let m4 = then_merge(
        m3,
        o.speed_up_pauses.is_some(),
        each_map(
            p,
            SegmentOp::Scale {
                numerator: o.speed_up_pauses.unwrap().1,
                denominator: o.speed_up_pauses.unwrap().0,
            },
        ),
    );
    then_merge(
        m4,
        o.speed_up_all.is_some(),
        each_map(
            segments,
            SegmentOp::Scale {
                numerator: o.speed_up_all.unwrap().1,
                denominator: o.speed_up_all.unwrap().0,
            },
        ),
    )
}

/// Build the segment operations the optimize options ask for.
///
/// The preset comes first; each individual option then overrides what came before, in
/// order: cap, collapse, remove, speed up pauses, speed up all, target duration. An
/// unreachable target duration is an error.
pub fn build_operations<H>(options: &OptimizeOptions, analysis: &Analysis<H>) -> (r: Result<SegmentOps, BuildError>)
    ensures
        match options.target_duration {
            None => r matches Ok(ops) && ops@ == options_map(*options, analysis.segments@),
            Some(t) => match target_plan(
                analysis.segments@,
                analysis.metadata.total_duration_ms as int,
                t as int,
            ) {
                Some(m) => r matches Ok(ops) && ops@ == options_map(*options, analysis.segments@).union_prefer_right(m),
                None => r == Err::<SegmentOps, BuildError>(BuildError::TargetUnreachable { target_ms: t }),
            },
        },
{
    let ghost segs = analysis.segments@;
    let ghost p = pause_seq(segs);
    let mut ops = match options.preset {
        None => SegmentOps::new(),
        Some(Preset::Fast) => analysis.pauses().cap(200),
        Some(Preset::Balanced) => analysis.pauses().cap(300).merge(&analysis.pauses().speed_up(3, 2)),
        Some(Preset::Aggressive) => analysis.pauses().collapse(100).merge(&analysis.all().speed_up(3, 2)),
    };
    proof {
        assert(ops@ == preset_map(options.preset, segs));
    }
    if let Some(cap_ms) = options.cap_pauses {
        ops = ops.merge(&analysis.pauses().cap(cap_ms));
    }
    if let Some(collapse_ms) = options.collapse_pauses {
        ops = ops.merge(&analysis.pauses().collapse(collapse_ms));
    }
    if let Some(threshold_ms) = options.remove_long {
        ops = ops.merge(&analysis.pauses().longer_than(threshold_ms).remove());
    }
    if let Some((num, den)) = options.speed_up_pauses {
        ops = ops.merge(&analysis.pauses().speed_up(num, den));
    }
    if let Some((num, den)) = options.speed_up_all {
        ops = ops.merge(&analysis.all().speed_up(num, den));
    }
    proof {
        assert(ops@ == options_map(*options, segs));
    }
    if let Some(target_ms) = options.target_duration {
        match analysis.target_duration(target_ms) {
            Some(target_ops) => {
                ops = ops.merge(&target_ops);
            },
            None => {
                return Err(BuildError::TargetUnreachable { target_ms });
            },
        }
    }
    Ok(ops)
}

/// Default settings of the configuration file.
#[derive(Debug, Clone)]
pub struct Defaults {
    /// Default hash algorithm.
    pub hasher: String,
    /// Default similarity threshold.
    pub threshold: u32,
    /// Default output format.
    pub output_format: String,
}

impl Default for Defaults {
    fn default() -> (r: Self)
        ensures
            r.hasher@ == default_hasher_text(),
            r.threshold == 5,
            r.output_format@ == seq!['t', 'a', 'b', 'l', 'e'],
    {
        Defaults { hasher: default_hasher(), threshold: default_threshold(), output_format: default_output_format() }
    }
}

/// The default hash algorithm's name.
pub open spec fn default_hasher_text() -> Seq<char> {
    seq!['d', 'h', 'a', 's', 'h']
}

/// The default hash algorithm: `"dhash"`.
pub fn default_hasher() -> (r: String)
    ensures
        r@ == default_hasher_text(),
{
    proof {
        reveal_strlit("dhash");
    }
    let r = String::from_str("dhash");
    assert(r@ =~= default_hasher_text());
    r
}

/// The default similarity threshold: 5.
pub fn default_threshold() -> (r: u32)
    ensures
        r == 5,
{
    5
}

/// The default output format: `"table"`.
pub fn default_output_format() -> (r: String)
    ensures
        r@ == seq!['t', 'a', 'b', 'l', 'e'],
{
    proof {
        reveal_strlit("table");
    }
    let r = String::from_str("table");
    assert(r@ =~= seq!['t', 'a', 'b', 'l', 'e']);
    r
}

/// Encoding settings of the configuration file.
#[derive(Debug, Clone)]
pub struct Encoding {
    /// Default encoder.
    pub default_encoder: String,
    /// Default lossy quality.
    pub lossy_quality: u8,
}

impl Default for Encoding {
    fn default() -> (r: Self)
        ensures
            r.default_encoder@ == seq!['s', 't', 'a', 'n', 'd', 'a', 'r', 'd'],
            r.lossy_quality == 80,
    {
        Encoding { default_encoder: default_encoder(), lossy_quality: default_lossy_quality() }
    }
}

/// The default encoder: `"standard"`.
pub fn default_encoder() -> (r: String)
    ensures
        r@ == seq!['s', 't', 'a', 'n', 'd', 'a', 'r', 'd'],
{
    proof {
        reveal_strlit("standard");
    }
    let r = String::from_str("standard");
    assert(r@ =~= seq!['s', 't', 'a', 'n', 'd', 'a', 'r', 'd']);
    r
}

/// The default lossy quality: 80.
pub fn default_lossy_quality() -> (r: u8)
    ensures
        r == 80,
{
    80
}

/// Kinds of output messages.
#[derive(Debug, Clone, Copy, PartialEq, Eq, Structural)]
pub enum MessageKind {
    /// Progress status.
    Status,
    /// A labelled value.
    Info,
    /// A section header.
    Header,
    /// A success message.
    Success,
    /// A warning.
    Warn,
    /// An error.
    Error,
    /// JSON data.
    Json,
}

/// Output context for consistent formatting.
#[derive(Debug, Clone, Copy)]
pub struct OutputContext {
    /// Whether to output JSON.
    pub json: bool,
    /// Whether to suppress non-essential output.
    pub quiet: bool,
}

impl OutputContext {
    /// Create an output context.
    pub fn new(json: bool, quiet: bool) -> (r: Self)
        ensures
            r.json == json,
            r.quiet == quiet,
    {
        OutputContext { json, quiet }
    }

    /// Whether a message of this kind is printed: status only when neither quiet nor in
    /// JSON mode, errors always, JSON data only in JSON mode, the rest unless in JSON mode.
    pub fn prints(&self, kind: MessageKind) -> (r: bool)
        ensures
            r == match kind {
                MessageKind::Status => !self.quiet && !self.json,
                MessageKind::Error => true,
                MessageKind::Json => self.json,
                _ => !self.json,
            },
    {
        match kind {
            MessageKind::Status => !self.quiet && !self.json,
            MessageKind::Error => true,
            MessageKind::Json => self.json,
            _ => !self.json,
        }
    }
}

/// Sum of the frames' delays, in centiseconds.
pub open spec fn delay_sum_cs(frames: Seq<EncodableFrame>) -> int
    decreases frames.len(),
{
    if frames.len() == 0 {
        0
    } else {
        delay_sum_cs(frames.drop_last()) + frames.last().delay_centiseconds
    }
}

/// The total duration of frames in milliseconds, saturating at `u64::MAX`.
pub fn result_duration_ms(frames: &[EncodableFrame]) -> (r: u64)
    ensures
        r == (if delay_sum_cs(frames@) * 10 <= u64::MAX { delay_sum_cs(frames@) * 10 } else { u64::MAX as int }),
{
    let mut total: u128 = 0;
    let mut i: usize = 0;
    while i < frames.len()
        invariant
            i <= frames@.len(),
            total == delay_sum_cs(frames@.take(i as int)),
            total <= i * 65535,
        decreases frames@.len() - i,
    {
        proof {
            assert(frames@.take(i + 1).drop_last() =~= frames@.take(i as int));
            assert((i + 1) * 65535 <= 0x1_0000_0000_0000_0000 * 65536) by (nonlinear_arith)
                requires i < usize::MAX, usize::MAX < 0x1_0000_0000_0000_0000;
        }
        total = total + frames[i].delay_centiseconds as u128;
        i = i + 1;
    }
    proof {
        assert(frames@.take(i as int) =~= frames@);
        assert(i * 65535 <= 0x1_0000_0000_0000_0000 * 65536) by (nonlinear_arith)
            requires i <= usize::MAX, usize::MAX < 0x1_0000_0000_0000_0000;
    }
    let ms = total * 10;
    if ms <= u64::MAX as u128 {
        ms as u64
    } else {
        u64::MAX
    }
}

/// The settings of one preset in the configuration file; speed factors are exact fractions
/// `(numerator, denominator)`.
#[derive(Debug, Clone, Copy, PartialEq, Eq)]
pub struct PresetConfig {
    /// Cap pauses to this duration (ms).
    pub cap_pauses: Option<u32>,
    /// Collapse pauses to this duration (ms).
    pub collapse_pauses: Option<u32>,
    /// Speed up pauses by this factor.
    pub speed_up_pauses: Option<(u32, u32)>,
    /// Speed up everything by this factor.
    pub speed_up_all: Option<(u32, u32)>,
    /// Remove pauses longer than this duration (ms).
    pub remove_long: Option<u32>,
}

/// A preset that sets nothing.
pub open spec fn empty_preset() -> PresetConfig {
    PresetConfig { cap_pauses: None, collapse_pauses: None, speed_up_pauses: None, speed_up_all: None, remove_long: None }
}

impl Default for PresetConfig {
    fn default() -> (r: Self)
        ensures
            r == empty_preset(),
    {
        PresetConfig { cap_pauses: None, collapse_pauses: None, speed_up_pauses: None, speed_up_all: None, remove_long: None }
    }
}

/// The presets of the configuration file.
#[derive(Debug, Clone, Copy, PartialEq, Eq)]
pub struct Presets {
    /// The fast preset.
    pub fast: PresetConfig,
    /// The balanced preset.
    pub balanced: PresetConfig,
    /// The aggressive preset.
    pub aggressive: PresetConfig,
}

impl Default for Presets {
    fn default() -> (r: Self)
        ensures
            r.fast == empty_preset(),
            r.balanced == empty_preset(),
            r.aggressive == empty_preset(),
    {
        Presets { fast: PresetConfig::default(), balanced: PresetConfig::default(), aggressive: PresetConfig::default() }
    }
}

impl Presets {
    /// The built-in presets: fast caps pauses to 200ms at normal speed; balanced caps
    /// pauses to 300ms and speeds them up 1.5x; aggressive collapses pauses to 100ms and
    /// speeds everything up 1.5x.
    pub fn with_defaults() -> (r: Self)
        ensures
            r.fast == (PresetConfig { cap_pauses: Some(200), speed_up_all: Some((1, 1)), ..empty_preset() }),
            r.balanced == (PresetConfig { cap_pauses: Some(300), speed_up_pauses: Some((3, 2)), ..empty_preset() }),
            r.aggressive == (PresetConfig { collapse_pauses: Some(100), speed_up_all: Some((3, 2)), ..empty_preset() }),
    {
        Presets {
            fast: PresetConfig { cap_pauses: Some(200), speed_up_all: Some((1, 1)), ..PresetConfig::default() },
            balanced: PresetConfig { cap_pauses: Some(300), speed_up_pauses: Some((3, 2)), ..PresetConfig::default() },
            aggressive: PresetConfig { collapse_pauses: Some(100), speed_up_all: Some((3, 2)), ..PresetConfig::default() },
        }
    }
}

/// The configuration file.
#[derive(Debug, Clone)]
pub struct Config {
    /// Default settings.
    pub defaults: Defaults,
    /// Preset settings.
    pub presets: Presets,
    /// Encoding settings.
    pub encoding: Encoding,
}

impl Default for Config {
    fn default() -> (r: Self)
        ensures
            r.defaults.hasher@ == default_hasher_text(),
            r.defaults.threshold == 5,
            r.presets.fast == empty_preset(),
            r.presets.balanced == empty_preset(),
            r.presets.aggressive == empty_preset(),
            r.encoding.lossy_quality == 80,
    {
        Config { defaults: Defaults::default(), presets: Presets::default(), encoding: Encoding::default() }
    }
}

/// The code of `c` in lower case, for ASCII letters.
pub open spec fn ascii_lower(c: char) -> u32 {
    if 'A' <= c && c <= 'Z' {
        (c as u32 + 32) as u32
    } else {
        c as u32
    }
}

/// `name` reads as the lower-case `word`, ignoring the case of ASCII letters.
pub open spec fn names(name: Seq<char>, word: Seq<char>) -> bool {
    name.len() == word.len() && forall|i: int| 0 <= i < name.len() ==> ascii_lower(#[trigger] name[i]) == word[i] as u32
}

/// Whether `name` reads as `word` (in lower case), ignoring the case of ASCII letters.
fn is_name(name: &Vec<char>, word: &[char]) -> (r: bool)
    ensures
        r == names(name@, word@),
{
    if name.len() != word.len() {
        return false;
    }
    let mut i: usize = 0;
    while i < name.len()
        invariant
            i <= name@.len(),
            name@.len() == word@.len(),
            forall|j: int| 0 <= j < i ==> ascii_lower(#[trigger] name@[j]) == word@[j] as u32,
        decreases name@.len() - i,
    {
        let c = name[i];
        let w = word[i];
        let same = if 'A' <= c && c <= 'Z' {
            (c as u32) + 32 == w as u32
        } else {
            c as u32 == w as u32
        };
        if !same {
            return false;
        }
        i = i + 1;
    }
    true
}

impl Config {
    /// The preset of the given name (`fast`, `balanced` or `aggressive`, in any letter
    /// case).
    pub fn get_preset(&self, name: &str) -> (r: Option<&PresetConfig>)
        ensures
            r == (if names(name@, seq!['f', 'a', 's', 't']) {
                Some(&self.presets.fast)
            } else if names(name@, seq!['b', 'a', 'l', 'a', 'n', 'c', 'e', 'd']) {
                Some(&self.presets.balanced)
            } else if names(name@, seq!['a', 'g', 'g', 'r', 'e', 's', 's', 'i', 'v', 'e']) {
                Some(&self.presets.aggressive)
            } else {
                None
            }),
    {
        let mut cs: Vec<char> = Vec::new();
        for c in it: name.chars()
            invariant
                cs@ == it.seq().take(it.index() as int),
                it.seq() == name@,
                it.index() == it.seq().len() ==> cs@ == name@,
        {
            cs.push(c);
            proof {
                assert(cs@ =~= it.seq().take(it.index() + 1));
                assert(it.index() + 1 == it.seq().len() ==> it.seq().take(it.index() + 1) =~= name@);
            }
        }
        let fast = ['f', 'a', 's', 't'];
        let balanced = ['b', 'a', 'l', 'a', 'n', 'c', 'e', 'd'];
        let aggressive = ['a', 'g', 'g', 'r', 'e', 's', 's', 'i', 'v', 'e'];
        proof {
            assert(fast@ =~= seq!['f', 'a', 's', 't']);
            assert(balanced@ =~= seq!['b', 'a', 'l', 'a', 'n', 'c', 'e', 'd']);
            assert(aggressive@ =~= seq!['a', 'g', 'g', 'r', 'e', 's', 's', 'i', 'v', 'e']);
        }
        if is_name(&cs, &fast) {
            Some(&self.presets.fast)
        } else if is_name(&cs, &balanced) {
            Some(&self.presets.balanced)
        } else if is_name(&cs, &aggressive) {
            Some(&self.presets.aggressive)
        } else {
            None
        }
    }
}

} // verus!
