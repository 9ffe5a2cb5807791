//! The regular expressions by which log lines are read.

use crate::model::opt_view;
use vstd::prelude::*;

verus! {

/// `regex::Regex`, a compiled expression; nothing is known of it but where it came from.
#[verifier::external_type_specification]
#[verifier::external_body]
pub struct ExRegex(regex::Regex);

/// What `regex::Regex::new` makes of a pattern; `None` where the pattern is not one, or too large.
pub uninterp spec fn compiled_regex(pattern: Seq<char>) -> Option<regex::Regex>;

/// What `regex::Regex::captures` finds in a text: for the leftmost match, the text of each group,
/// the whole match first; `None` for a group that takes no part. It is the pattern, not the
/// compiled form of it, that decides.
pub uninterp spec fn captured_groups(pattern: Seq<char>, text: Seq<char>) -> Option<
    Seq<Option<Seq<char>>>,
>;

/// A pattern and its compiled form.
pub struct Pattern {
    source: String,
    regex: regex::Regex,
}

impl View for Pattern {
    type V = Seq<char>;

    closed spec fn view(&self) -> Seq<char> {
        self.source@
    }
}

/// `regex::Regex::new`: compiles a pattern, and fails on a text that is none or whose compiled form
/// is over the size limit.
#[verifier::external_body]
fn compile_regex(pattern: &str) -> (regex: Option<regex::Regex>)
    ensures
        regex == compiled_regex(pattern@),
{
    regex::Regex::new(pattern).ok()
}

/// `regex::Regex::captures`, and the text of each group of what it found.
#[verifier::external_body]
fn regex_captures(pattern: &Pattern, text: &str) -> (groups: Option<Vec<Option<String>>>)
    ensures
        groups_found(groups) == captured_groups(pattern@, text@),
{
    pattern.regex.captures(text).map(
        |caps| caps.iter().map(|group| group.map(|m| m.as_str().to_owned())).collect(),
    )
}

/// The texts of groups.
pub open spec fn group_texts(groups: Seq<Option<String>>) -> Seq<Option<Seq<char>>> {
    Seq::new(groups.len(), |i: int| opt_view(groups[i]))
}

/// The texts of groups, where there are any.
pub open spec fn groups_found(groups: Option<Vec<Option<String>>>) -> Option<
    Seq<Option<Seq<char>>>,
> {
    match groups {
        Some(g) => Some(group_texts(g@)),
        None => None,
    }
}

/// The text of group `i`.
pub open spec fn group_at(groups: Seq<Option<Seq<char>>>, i: int) -> Option<Seq<char>> {
    if 0 <= i < groups.len() {
        groups[i]
    } else {
        None
    }
}

/// The text of group `i`.
pub fn group(groups: &Vec<Option<String>>, i: usize) -> (text: Option<&String>)
    ensures
        match text {
            Some(t) => group_at(group_texts(groups@), i as int) == Some(t@),
            None => group_at(group_texts(groups@), i as int) is None,
        },
{
    if i < groups.len() {
        match &groups[i] {
            Some(t) => Some(t),
            None => None,
        }
    } else {
        None
    }
}

impl Pattern {
    #[verifier::type_invariant]
    spec fn compiled(self) -> bool {
        compiled_regex(self.source@) == Some(self.regex)
    }

    /// Compiles a pattern.
    fn new(source: &str) -> (pattern: Option<Pattern>)
        ensures
            match pattern {
                Some(p) => p@ == source@ && compiled_regex(source@) is Some,
                None => compiled_regex(source@) is None,
            },
    {
        match compile_regex(source) {
            Some(regex) => Some(Pattern { source: source.to_owned(), regex }),
            None => None,
        }
    }

    /// The groups of the leftmost match in a text.
    pub fn captures(&self, text: &str) -> (groups: Option<Vec<Option<String>>>)
        ensures
            groups_found(groups) == captured_groups(self@, text@),
    {
        regex_captures(self, text)
    }
}

/// Millisecond timestamp from the inner log message
pub const TIMESTAMP: &'static str = r"(\d{4}-\d{2}-\d{2} \d{2}:\d{2}:\d{2}\.\d{3})";

/// `[Parachain] 🏆 Imported #1713769 (0xe05d…b05e → 0xd58a…29a8)`
pub const BLOCK_IMPORT: &'static str = r"\[(Parachain|Relaychain)\]\s+[^\s]+\s+Imported\s+#(\d+)\s+\((0x[0-9a-f\u{2026}]+)\s+→\s+(0x[0-9a-f\u{2026}]+)\)";

/// `Not building block. unincluded_segment_len=33 relay_parent=0x... relay_parent_num=30400619
/// included_hash=0x... included_num=1713735 parent=0x... slot=Slot(295627304)`
pub const NOT_BUILDING: &'static str = r"Not building block\.\s+unincluded_segment_len=(\d+)\s+relay_parent=(0x[0-9a-f]+)\s+relay_parent_num=(\d+)\s+included_hash=(0x[0-9a-f]+)\s+included_num=(\d+)\s+parent=(0x[0-9a-f]+)\s+slot=Slot\((\d+)\)";

/// `Building block. unincluded_segment_len=38 relay_parent=0x5ec7…83e9 relay_parent_num=30400616
/// relay_parent_offset=1 included_hash=0xdd3c…adde included_num=1713705 parent=0x608f…580d
/// slot=Slot(295627301)`
pub const BUILDING: &'static str = r"Building block\.\s+unincluded_segment_len=(\d+)\s+relay_parent=(0x[0-9a-f\u{2026}]+)\s+relay_parent_num=(\d+)\s+(?:relay_parent_offset=(\d+)\s+)?included_hash=(0x[0-9a-f\u{2026}]+)\s+included_num=(\d+)\s+parent=(0x[0-9a-f\u{2026}]+)\s+slot=Slot\((\d+)\)";

/// `Pre-sealed block for proposal at 1713743. Hash now 0x608f..., previously 0x5b58...`
pub const PRE_SEALED: &'static str = r"Pre-sealed block for proposal at (\d+)\.\s+Hash now (0x[0-9a-f]+),\s+previously (0x[0-9a-f]+)";

/// `Submitting collation for core. core_index=CoreIndex(62) hash=0x608f... number=1713743`
pub const COLLATION_SUBMIT: &'static str = r"Submitting collation for core\.\s+core_index=CoreIndex\((\d+)\)\s+hash=(0x[0-9a-f\u{2026}]+)\s+number=(\d+)";

/// `Collation fetch latency is 3ms para_head=0x608f... our_para_id=3428`
pub const FETCH_LATENCY: &'static str = r"Collation fetch latency is (\d+)ms\s+para_head=(0x[0-9a-f]+)\s+our_para_id=(\d+)";

/// `Candidate generated candidate_hash=0x... pov_hash=0x... relay_parent=0x... para_id=3428
/// core_index=CoreIndex(62)`
pub const CANDIDATE_GENERATED: &'static str = r"Candidate generated\s+candidate_hash=(0x[0-9a-f]+)\s+pov_hash=0x[0-9a-f]+\s+relay_parent=(0x[0-9a-f]+)\s+para_id=(\d+)\s+core_index=CoreIndex\((\d+)\)";

/// `Our view updated, current view: OurView { view: View { heads: [...],
/// finalized_number: 30400616 } }`
pub const VIEW_UPDATE: &'static str = r"Our view updated.*heads:\s*\[([^\]]*)\],\s*finalized_number:\s*(\d+)";

/// `Collation expired age=4 collation_state="advertised" relay_parent=(0xd14e...bf1b, 30511804)
/// para_id=Id(3428) head=0x... candidate_hash=0x...`; the fields may have quotes or not, and the
/// hashes may be truncated.
pub const COLLATION_EXPIRED: &'static str = r#"Collation expired\s+age=(\d+)\s+collation_state="?(\w+)"?\s+relay_parent=\(?(0x[0-9a-f\u{2026}]+),?\s*(\d+)\)?"#;

/// The head of an expired collation.
pub const HEAD: &'static str = r"head=(0x[0-9a-f\u{2026}]+)";

/// The candidate hash of an expired collation.
pub const CANDIDATE_HASH: &'static str = r"candidate_hash=(0x[0-9a-f\u{2026}]+)";

/// The patterns of all log lines that are read.
pub struct Patterns {
    pub timestamp: Pattern,
    pub block_import: Pattern,
    pub not_building: Pattern,
    pub building: Pattern,
    pub pre_sealed: Pattern,
    pub collation_submit: Pattern,
    pub fetch_latency: Pattern,
    pub candidate_generated: Pattern,
    pub view_update: Pattern,
    pub collation_expired: Pattern,
    pub head: Pattern,
    pub candidate_hash: Pattern,
}

impl Patterns {
    /// Each field holds the pattern of its name.
    pub open spec fn wf(&self) -> bool {
        &&& self.timestamp@ == TIMESTAMP@
        &&& self.block_import@ == BLOCK_IMPORT@
        &&& self.not_building@ == NOT_BUILDING@
        &&& self.building@ == BUILDING@
        &&& self.pre_sealed@ == PRE_SEALED@
        &&& self.collation_submit@ == COLLATION_SUBMIT@
        &&& self.fetch_latency@ == FETCH_LATENCY@
        &&& self.candidate_generated@ == CANDIDATE_GENERATED@
        &&& self.view_update@ == VIEW_UPDATE@
        &&& self.collation_expired@ == COLLATION_EXPIRED@
        &&& self.head@ == HEAD@
        &&& self.candidate_hash@ == CANDIDATE_HASH@
    }
}

/// Whether every pattern compiles.
pub open spec fn patterns_compile() -> bool {
    &&& compiled_regex(TIMESTAMP@) is Some
    &&& compiled_regex(BLOCK_IMPORT@) is Some
    &&& compiled_regex(NOT_BUILDING@) is Some
    &&& compiled_regex(BUILDING@) is Some
    &&& compiled_regex(PRE_SEALED@) is Some
    &&& compiled_regex(COLLATION_SUBMIT@) is Some
    &&& compiled_regex(FETCH_LATENCY@) is Some
    &&& compiled_regex(CANDIDATE_GENERATED@) is Some
    &&& compiled_regex(VIEW_UPDATE@) is Some
    &&& compiled_regex(COLLATION_EXPIRED@) is Some
    &&& compiled_regex(HEAD@) is Some
    &&& compiled_regex(CANDIDATE_HASH@) is Some
}

/// All patterns, compiled; `None` exactly where one does not compile.
pub fn patterns() -> (patterns: Option<Patterns>)
    ensures
        match patterns {
            Some(p) => p.wf() && patterns_compile(),
            None => !patterns_compile(),
        },
{
    Some(
        Patterns {
            timestamp: Pattern::new(TIMESTAMP)?,
            block_import: Pattern::new(BLOCK_IMPORT)?,
            not_building: Pattern::new(NOT_BUILDING)?,
            building: Pattern::new(BUILDING)?,
            pre_sealed: Pattern::new(PRE_SEALED)?,
            collation_submit: Pattern::new(COLLATION_SUBMIT)?,
            fetch_latency: Pattern::new(FETCH_LATENCY)?,
            candidate_generated: Pattern::new(CANDIDATE_GENERATED)?,
            view_update: Pattern::new(VIEW_UPDATE)?,
            collation_expired: Pattern::new(COLLATION_EXPIRED)?,
            head: Pattern::new(HEAD)?,
            candidate_hash: Pattern::new(CANDIDATE_HASH)?,
        },
    )
}

} // verus!
