//! Block hashes as they appear in logs, whole or with the middle left out, and the registry that
//! finds the whole hash again.

use crate::hex;
use crate::text::{chars_of, count_fitting, find_ellipsis, has_char, text_between};
use vstd::hash_map::StringHashMap;
use vstd::prelude::*;
use vstd::string::*;

verus! {

/// A hash that may be truncated (as in a log line) or whole.
/// Truncated format: "0xabcd…ef01" (first 2 bytes + last 2 bytes)
#[derive(Debug)]
pub struct LogHash {
    /// The text as it appeared in the log (such as "0xabcd…ef01", or all the digits)
    pub raw: String,
    /// The whole 32-byte hash, if known
    pub full: Option<[u8; 32]>,
}

/// What a `LogHash` holds.
#[verifier::ext_equal]
pub struct LogHashView {
    pub raw: Seq<char>,
    pub full: Option<Seq<u8>>,
}

impl View for LogHash {
    type V = LogHashView;

    open spec fn view(&self) -> LogHashView {
        LogHashView { raw: self.raw@, full: crate::model::opt_view(self.full) }
    }
}

impl Clone for LogHash {
    fn clone(&self) -> (copy: Self)
        ensures
            copy@ == self@,
    {
        LogHash { raw: self.raw.clone(), full: self.full }
    }
}

/// A whole hash as text: "0x" and 64 digits.
pub open spec fn full_text(hash: Seq<u8>) -> Seq<char> {
    seq!['0', 'x'] + hex::hex_text(hash)
}

/// A whole hash with the middle left out: "0x", four digits, an ellipsis and four digits.
pub open spec fn truncated_text(hash: Seq<u8>) -> Seq<char> {
    let whole = full_text(hash);
    whole.take(6).push(crate::text::ELLIPSIS) + whole.skip(whole.len() - 4)
}

/// The text without a leading "0x".
pub open spec fn without_0x(s: Seq<char>) -> Seq<char> {
    if s.len() >= 2 && s[0] == '0' && s[1] == 'x' {
        s.skip(2)
    } else {
        s
    }
}

/// The 32-byte hash that a text gives: 64 hexadecimal digits behind an optional "0x".
pub open spec fn hash_in(s: Seq<char>) -> Option<Seq<u8>> {
    if crate::text::utf8_len(without_0x(s)) == 64 {
        hex::hex_bytes(without_0x(s))
    } else {
        None
    }
}

/// The hash as the log gave it, without knowledge of the whole.
pub open spec fn unresolved(s: Seq<char>) -> LogHashView {
    LogHashView { raw: s, full: None }
}

/// The hash as the log gave it, with the whole where the text holds it.
pub open spec fn whole_hash(s: Seq<char>) -> LogHashView {
    LogHashView { raw: s, full: hash_in(s) }
}

/// Whether a text is taken for a truncated hash: it has an ellipsis, or is shorter than 66 bytes.
pub open spec fn looks_truncated(s: Seq<char>) -> bool {
    s.contains(crate::text::ELLIPSIS) || crate::text::utf8_len(s) < 66
}

/// The hash as the log gave it; the whole is known where the text does not look truncated.
pub open spec fn auto_hash(s: Seq<char>) -> LogHashView {
    if looks_truncated(s) {
        unresolved(s)
    } else {
        whole_hash(s)
    }
}

/// Whether `t` begins with `p`.
pub open spec fn begins_with(t: Seq<char>, p: Seq<char>) -> bool {
    p.len() <= t.len() && t.take(p.len() as int) == p
}

/// Whether `t` ends with `q`.
pub open spec fn ends_with(t: Seq<char>, q: Seq<char>) -> bool {
    q.len() <= t.len() && t.skip(t.len() - q.len()) == q
}

/// Whether a logged hash can stand for the whole hash `full`: it is known to be that one, or its
/// two parts are the beginning and the end of it.
pub open spec fn stands_for(h: LogHashView, full: Seq<u8>) -> bool {
    match h.full {
        Some(known) => known == full,
        None => match crate::text::ellipsis_parts(h.raw) {
            Some((p, q)) => begins_with(full_text(full), p) && ends_with(full_text(full), q),
            None => false,
        },
    }
}

/// The text by which a hash is compared: the whole hash where it is known, else the text logged.
pub open spec fn hash_key(h: LogHashView) -> Seq<char> {
    match h.full {
        Some(full) => full_text(full),
        None => h.raw,
    }
}

/// As `hash_key`, where the registry may know the whole hash.
pub open spec fn resolved_key(h: LogHashView, registry: RegistryView) -> Seq<char> {
    match h.full {
        Some(full) => full_text(full),
        None => match resolved(registry, h.raw) {
            Some(full) => full_text(full),
            None => h.raw,
        },
    }
}

/// The beginning of a text that is shown: at most 14 bytes of it.
pub open spec fn short_text(s: Seq<char>) -> Seq<char> {
    s.take(crate::text::fitting_chars(s, 14) as int)
}

/// Whether two hashes are the same.
pub fn same_hash(a: &[u8; 32], b: &[u8; 32]) -> (same: bool)
    ensures
        same == (a@ == b@),
        same == (*a == *b),
{
    let mut i: usize = 0;
    while i < 32
        invariant
            i <= 32,
            forall|j: int| 0 <= j < i ==> a@[j] == b@[j],
        decreases 32 - i,
    {
        if a[i] != b[i] {
            return false;
        }
        i = i + 1;
    }
    assert(a@ =~= b@);
    assert(*a =~= *b);
    true
}

/// A whole hash as text: "0x" and 64 digits.
pub fn text_of_hash(hash: &[u8; 32]) -> (text: String)
    ensures
        text@ == full_text(hash@),
{
    let mut text = String::new();
    text.push('0');
    text.push('x');
    let digits = hex::encode(hash.as_slice());
    text.append(digits.as_str());
    assert(text@ == full_text(hash@));
    text
}

/// A hash as text with the middle left out.
pub fn short_text_of_hash(hash: &[u8; 32]) -> (text: String)
    ensures
        text@ == truncated_text(hash@),
{
    let whole = text_of_hash(hash);
    let chars = chars_of(whole.as_str());
    proof {
        hex::decode_encode(hash@);
        assert(whole@.len() == 66);
    }
    let mut short = text_between(&chars, 0, 6);
    short.push(crate::text::ELLIPSIS);
    let tail = text_between(&chars, chars.len() - 4, chars.len());
    short.append(tail.as_str());
    assert(short@ == truncated_text(hash@));
    short
}

/// The number of bytes of a text in UTF-8, where it is below `limit`; else `limit`.
fn bytes_below(chars: &Vec<char>, from: usize, limit: usize) -> (n: usize)
    requires
        from <= chars@.len(),
        limit < usize::MAX - 4,
    ensures
        n == if crate::text::utf8_len(chars@.skip(from as int)) < limit {
            crate::text::utf8_len(chars@.skip(from as int))
        } else {
            limit as nat
        },
{
    let ghost body = chars@.skip(from as int);
    let mut n: usize = 0;
    let mut i = from;
    while i < chars.len()
        invariant
            from <= i <= chars@.len(),
            body == chars@.skip(from as int),
            n == crate::text::utf8_len(body.take(i - from)),
            n < limit || n == 0,
            limit < usize::MAX - 4,
        decreases chars@.len() - i,
    {
        assert(body.take(i + 1 - from).drop_last() == body.take(i - from));
        let next = n + crate::text::char_width(chars[i]);
        if next >= limit {
            proof {
                crate::text::utf8_len_grows(body, i + 1 - from, body.len() as int);
                assert(body.take(body.len() as int) == body);
            }
            return limit;
        }
        n = next;
        i = i + 1;
    }
    assert(body.take(body.len() as int) == body);
    if n >= limit {
        return limit;
    }
    n
}

/// The 32-byte hash that a text gives: 64 hexadecimal digits behind an optional "0x".
pub fn parse_hex_hash(s: &str) -> (hash: Option<[u8; 32]>)
    ensures
        crate::model::opt_view(hash) == hash_in(s@),
{
    let chars = chars_of(s);
    let from: usize = if chars.len() >= 2 && chars[0] == '0' && chars[1] == 'x' {
        2
    } else {
        0
    };
    assert(s@.skip(0) == s@);
    if bytes_below(&chars, from, 65) != 64 {
        return None;
    }
    let digits = text_between(&chars, from, chars.len());
    assert(digits@ == without_0x(s@));
    proof {
        hex::hex_bytes_lengths(digits@);
    }
    match hex::decode(digits.as_str()) {
        Ok(bytes) => {
            let mut hash = [0u8;32];
            let mut i: usize = 0;
            while i < 32
                invariant
                    i <= 32,
                    bytes@.len() == 32,
                    forall|j: int| 0 <= j < i ==> hash@[j] == bytes@[j],
                decreases 32 - i,
            {
                hash[i] = bytes[i];
                i = i + 1;
            }
            assert(hash@ =~= bytes@);
            Some(hash)
        },
        Err(_) => None,
    }
}

/// Whether `t` begins with `p[..n]`.
fn starts_with_part(t: &Vec<char>, p: &Vec<char>, n: usize) -> (yes: bool)
    requires
        n <= p@.len(),
    ensures
        yes == begins_with(t@, p@.take(n as int)),
{
    if n > t.len() {
        return false;
    }
    let mut i: usize = 0;
    while i < n
        invariant
            i <= n <= t@.len(),
            n <= p@.len(),
            forall|j: int| 0 <= j < i ==> t@[j] == p@[j],
        decreases n - i,
    {
        if t[i] != p[i] {
            assert(t@.take(n as int)[i as int] != p@.take(n as int)[i as int]);
            return false;
        }
        i = i + 1;
    }
    assert(t@.take(n as int) == p@.take(n as int));
    true
}

/// Whether `t` ends with `p[from..]`.
fn ends_with_part(t: &Vec<char>, p: &Vec<char>, from: usize) -> (yes: bool)
    requires
        from <= p@.len(),
    ensures
        yes == ends_with(t@, p@.skip(from as int)),
{
    let n = p.len() - from;
    if n > t.len() {
        return false;
    }
    let base = t.len() - n;
    let mut i: usize = 0;
    while i < n
        invariant
            i <= n,
            base + n == t.len(),
            from + n == p.len(),
            forall|j: int|
                0 <= j < i ==> #[trigger] t@.skip(base as int)[j] == p@.skip(from as int)[j],
        decreases n - i,
    {
        if t[base + i] != p[from + i] {
            assert(t@.skip(base as int)[i as int] != p@.skip(from as int)[i as int]);
            return false;
        }
        i = i + 1;
    }
    assert(t@.skip(base as int) == p@.skip(from as int));
    true
}

impl LogHash {
    /// A hash of which only the logged text is known.
    pub fn from_truncated(s: &str) -> (hash: Self)
        ensures
            hash@ == unresolved(s@),
    {
        Self { raw: s.to_owned(), full: None }
    }

    /// A hash whose logged text holds all the digits, if it does.
    pub fn from_full(s: &str) -> (hash: Self)
        ensures
            hash@ == whole_hash(s@),
    {
        let full = parse_hex_hash(s);
        Self { raw: s.to_owned(), full }
    }

    /// A hash that is whole or truncated, as its text tells.
    pub fn from_auto(s: &str) -> (hash: Self)
        ensures
            hash@ == auto_hash(s@),
    {
        let chars = chars_of(s);
        assert(s@.skip(0) == s@);
        if has_char(s, crate::text::ELLIPSIS) || bytes_below(&chars, 0, 66) < 66 {
            Self::from_truncated(s)
        } else {
            Self::from_full(s)
        }
    }

    /// Looks the whole hash up in a registry, where it is not known yet.
    pub fn resolve(&mut self, registry: &HashRegistry)
        ensures
            final(self)@ == (LogHashView {
                raw: old(self)@.raw,
                full: match old(self)@.full {
                    Some(full) => Some(full),
                    None => resolved(registry@, old(self)@.raw),
                },
            }),
    {
        if self.full.is_some() {
            return;
        }
        if let Some(full) = registry.resolve(self.raw.as_str()) {
            self.full = Some(full);
        }
    }

    /// The beginning of the logged text: at most 14 bytes, cut between characters.
    pub fn short(&self) -> (text: &str)
        ensures
            text@ == short_text(self@.raw),
    {
        let n = count_fitting(self.raw.as_str(), 14);
        self.raw.as_str().substring_char(0, n)
    }

    /// Whether this hash can stand for the whole hash `full`.
    pub fn matches_full(&self, full: &[u8; 32]) -> (yes: bool)
        ensures
            yes == stands_for(self@, full@),
    {
        if let Some(known) = &self.full {
            return same_hash(known, full);
        }
        let raw = chars_of(self.raw.as_str());
        match find_ellipsis(&raw) {
            Some(i) => {
                let whole = chars_of(text_of_hash(full).as_str());
                assert(i < raw.len());
                starts_with_part(&whole, &raw, i) && ends_with_part(&whole, &raw, i + 1)
            },
            None => false,
        }
    }

    /// The hash as text: the whole hash where it is known, else the text logged.
    pub fn to_text(&self) -> (text: String)
        ensures
            text@ == hash_key(self@),
    {
        match &self.full {
            Some(full) => text_of_hash(full),
            None => self.raw.clone(),
        }
    }
}

/// The text by which a hash is compared. Always the whole hash if it is known.
pub fn full_hash_key(h: &LogHash) -> (key: String)
    ensures
        key@ == hash_key(h@),
{
    h.to_text()
}

/// The text by which a hash is compared, where a registry may know the whole hash.
/// Falls back to the text logged.
pub fn resolve_hash_key(h: &LogHash, registry: &HashRegistry) -> (key: String)
    ensures
        key@ == resolved_key(h@, registry@),
{
    if let Some(full) = &h.full {
        return text_of_hash(full);
    }
    if let Some(full) = registry.resolve(h.raw.as_str()) {
        return text_of_hash(&full);
    }
    h.raw.clone()
}

/// Registry that finds whole hashes by their truncated or whole texts.
pub struct HashRegistry {
    by_truncated: StringHashMap<[u8; 32]>,
    by_full: StringHashMap<[u8; 32]>,
    /// The hashes registered, in order.
    order: Vec<[u8; 32]>,
}

/// What a registry knows.
#[verifier::ext_equal]
pub struct RegistryView {
    /// The hash last registered for each truncated text.
    pub by_truncated: Map<Seq<char>, Seq<u8>>,
    /// The hash for each whole text.
    pub by_full: Map<Seq<char>, Seq<u8>>,
}

/// A registry that knows nothing.
pub open spec fn empty_registry() -> RegistryView {
    RegistryView { by_truncated: Map::empty(), by_full: Map::empty() }
}

/// What a registry knows after the hash `h` was registered.
pub open spec fn with_hash(r: RegistryView, h: Seq<u8>) -> RegistryView {
    RegistryView {
        by_truncated: r.by_truncated.insert(truncated_text(h), h),
        by_full: r.by_full.insert(full_text(h), h),
    }
}

/// What a registry knows after the text `s` was registered.
pub open spec fn with_text(r: RegistryView, s: Seq<char>) -> RegistryView {
    match hash_in(s) {
        Some(h) => with_hash(r, h),
        None => r,
    }
}

/// What a registry knows after several texts were registered.
pub open spec fn with_texts(r: RegistryView, s: Seq<Seq<char>>) -> RegistryView
    decreases s.len(),
{
    if s.len() == 0 {
        r
    } else {
        with_text(with_texts(r, s.drop_last()), s.last())
    }
}

/// The whole hash for a text: that of the whole text, else that of a text with one ellipsis.
pub open spec fn resolved(r: RegistryView, raw: Seq<char>) -> Option<Seq<u8>> {
    if r.by_full.contains_key(raw) {
        Some(r.by_full[raw])
    } else if crate::text::ellipsis_parts(raw) is Some && r.by_truncated.contains_key(raw) {
        Some(r.by_truncated[raw])
    } else {
        None
    }
}

/// What two registries know together; where both know a text, the second one counts.
pub open spec fn merged(a: RegistryView, b: RegistryView) -> RegistryView {
    RegistryView {
        by_truncated: a.by_truncated.union_prefer_right(b.by_truncated),
        by_full: a.by_full.union_prefer_right(b.by_full),
    }
}

/// What a registry knows after the hashes were registered in turn.
pub open spec fn with_hashes(r: RegistryView, order: Seq<[u8; 32]>) -> RegistryView
    decreases order.len(),
{
    if order.len() == 0 {
        r
    } else {
        with_hash(with_hashes(r, order.drop_last()), order.last()@)
    }
}

proof fn with_hashes_merges(r: RegistryView, order: Seq<[u8; 32]>)
    ensures
        with_hashes(r, order) == merged(r, with_hashes(empty_registry(), order)),
    decreases order.len(),
{
    if order.len() > 0 {
        with_hashes_merges(r, order.drop_last());
    }
    assert(with_hashes(r, order) =~= merged(r, with_hashes(empty_registry(), order)));
}

/// Hash values by text, as sequences of bytes.
pub open spec fn as_bytes(m: Map<Seq<char>, [u8; 32]>) -> Map<Seq<char>, Seq<u8>> {
    m.map_values(|h: [u8; 32]| h@)
}

impl View for HashRegistry {
    type V = RegistryView;

    closed spec fn view(&self) -> RegistryView {
        RegistryView {
            by_truncated: as_bytes(self.by_truncated@),
            by_full: as_bytes(self.by_full@),
        }
    }
}

impl HashRegistry {
    /// The order of registration accounts for everything the registry knows.
    pub closed spec fn wf(&self) -> bool {
        self@ == with_hashes(empty_registry(), self.order@)
    }

    /// A registry that knows nothing.
    pub fn new() -> (registry: Self)
        ensures
            registry@ == empty_registry(),
            registry.wf(),
    {
        let registry = HashRegistry {
            by_truncated: StringHashMap::new(),
            by_full: StringHashMap::new(),
            order: Vec::new(),
        };
        assert(registry@ =~= empty_registry());
        registry
    }

    fn register(&mut self, hash: [u8; 32])
        requires
            old(self).wf(),
        ensures
            final(self)@ == with_hash(old(self)@, hash@),
            final(self).wf(),
    {
        let whole = text_of_hash(&hash);
        let short = short_text_of_hash(&hash);
        self.by_full.insert(whole, hash);
        self.by_truncated.insert(short, hash);
        self.order.push(hash);
        proof {
            assert(self@ =~= with_hash(old(self)@, hash@));
            assert(self.order@.drop_last() == old(self).order@);
        }
    }

    /// Registers the hash that a text gives, under its whole and its truncated text.
    pub fn register_full(&mut self, full_hex: &str)
        requires
            old(self).wf(),
        ensures
            final(self)@ == with_text(old(self)@, full_hex@),
            final(self).wf(),
    {
        if let Some(hash) = parse_hex_hash(full_hex) {
            self.register(hash);
        }
    }

    /// Registers everything that another registry knows.
    pub fn absorb(&mut self, other: &HashRegistry)
        requires
            old(self).wf(),
            other.wf(),
        ensures
            final(self)@ == merged(old(self)@, other@),
            final(self).wf(),
    {
        let mut i: usize = 0;
        while i < other.order.len()
            invariant
                i <= other.order@.len(),
                self.wf(),
                self@ == with_hashes(old(self)@, other.order@.take(i as int)),
            decreases other.order@.len() - i,
        {
            assert(other.order@.take(i + 1).drop_last() == other.order@.take(i as int));
            self.register(other.order[i]);
            i = i + 1;
        }
        proof {
            assert(other.order@.take(other.order@.len() as int) == other.order@);
            with_hashes_merges(old(self)@, other.order@);
        }
    }

    /// The whole hash for a whole or truncated text.
    pub fn resolve(&self, raw: &str) -> (hash: Option<[u8; 32]>)
        ensures
            crate::model::opt_view(hash) == resolved(self@, raw@),
    {
        if let Some(hash) = self.by_full.get(raw) {
            return Some(*hash);
        }
        let chars = chars_of(raw);
        if find_ellipsis(&chars).is_some() {
            if let Some(hash) = self.by_truncated.get(raw) {
                return Some(*hash);
            }
        }
        None
    }
}

impl Default for HashRegistry {
    fn default() -> (registry: Self)
        ensures
            registry@ == empty_registry(),
            registry.wf(),
    {
        HashRegistry::new()
    }
}

// ---- What registration promises ----
proof fn hex_text_is_plain(bytes: Seq<u8>)
    ensures
        hex::hex_text(bytes).len() == 2 * bytes.len(),
        crate::text::utf8_len(hex::hex_text(bytes)) == 2 * bytes.len(),
        forall|i: int|
            0 <= i < hex::hex_text(bytes).len() ==> #[trigger] hex::hex_text(bytes)[i]
                != crate::text::ELLIPSIS,
    decreases bytes.len(),
{
    hex::decode_encode(bytes);
    hex::hex_bytes_lengths(hex::hex_text(bytes));
    if bytes.len() > 0 {
        hex_text_is_plain(bytes.drop_last());
    }
}

/// The hash that a whole text gives is the one that it was made from.
pub proof fn hash_in_full_text(h: Seq<u8>)
    requires
        h.len() == 32,
    ensures
        hash_in(full_text(h)) == Some(h),
{
    hex_text_is_plain(h);
    hex::decode_encode(h);
    assert(without_0x(full_text(h)) =~= hex::hex_text(h));
}

/// A truncated text has one ellipsis, between the beginning and the end of the whole text.
pub proof fn truncated_text_splits(h: Seq<u8>)
    requires
        h.len() == 32,
    ensures
        crate::text::ellipsis_parts(truncated_text(h)) == Some(
            (full_text(h).take(6), full_text(h).skip(full_text(h).len() - 4)),
        ),
        stands_for(unresolved(truncated_text(h)), h),
{
    hex_text_is_plain(h);
    let whole = full_text(h);
    let t = truncated_text(h);
    assert(forall|i: int| 0 <= i < whole.len() ==> #[trigger] whole[i] != crate::text::ELLIPSIS);
    assert(crate::text::splits_at(t, 6)) by {
        assert forall|j: int| 0 <= j < t.len() && j != 6 implies t[j] != crate::text::ELLIPSIS by {
            if j < 6 {
                assert(t[j] == whole[j]);
            } else {
                assert(t[j] == whole[whole.len() - 4 + (j - 7)]);
            }
        }
    }
    let i = choose|i: int| crate::text::splits_at(t, i);
    assert(i == 6);
    assert(t.take(6) =~= whole.take(6));
    assert(t.skip(7) =~= whole.skip(whole.len() - 4));
}

/// Whether a registry knows hashes only by their own texts.
pub open spec fn registry_ok(r: RegistryView) -> bool {
    &&& forall|k: Seq<char>| #[trigger]
        r.by_full.contains_key(k) ==> r.by_full[k].len() == 32 && k == full_text(r.by_full[k])
    &&& forall|k: Seq<char>| #[trigger]
        r.by_truncated.contains_key(k) ==> r.by_truncated[k].len() == 32 && k == truncated_text(
            r.by_truncated[k],
        )
}

/// A whole text is never that of a truncated hash.
proof fn texts_differ(a: Seq<u8>, b: Seq<u8>)
    requires
        a.len() == 32,
        b.len() == 32,
    ensures
        full_text(a) != truncated_text(b),
{
    hex_text_is_plain(a);
    hex_text_is_plain(b);
    assert(full_text(a).len() == 66);
    assert(truncated_text(b).len() == 11);
}

/// A registered hash is found by its whole text and by its truncated text, and the registry knows
/// hashes only by their own texts.
pub proof fn registered_hash_resolves(r: RegistryView, s: Seq<char>)
    requires
        registry_ok(r),
    ensures
        registry_ok(with_text(r, s)),
        hash_in(s) matches Some(h) ==> resolved(with_text(r, s), full_text(h)) == Some(h)
            && resolved(with_text(r, s), truncated_text(h)) == Some(h),
{
    if let Some(h) = hash_in(s) {
        hex::hex_bytes_lengths(without_0x(s));
        assert(h.len() == 32);
        truncated_text_splits(h);
        let t = truncated_text(h);
        let next = with_text(r, s);
        if next.by_full.contains_key(t) {
            texts_differ(next.by_full[t], h);
        }
    }
}

/// Registering a hash changes nothing for texts other than its own two.
pub proof fn other_texts_resolve_as_before(r: RegistryView, s: Seq<char>, raw: Seq<char>)
    requires
        hash_in(s) matches Some(h) ==> raw != full_text(h) && raw != truncated_text(h),
    ensures
        resolved(with_text(r, s), raw) == resolved(r, raw),
{
}

/// A hash that is found by its whole text stays found by it, whatever is registered or joined later.
pub proof fn whole_text_stays_found(r: RegistryView, s: Seq<char>, other: RegistryView, h: Seq<u8>)
    requires
        registry_ok(r),
        registry_ok(other),
        h.len() == 32,
        resolved(r, full_text(h)) == Some(h),
    ensures
        resolved(with_text(r, s), full_text(h)) == Some(h),
        resolved(merged(r, other), full_text(h)) == Some(h),
{
    let t = full_text(h);
    hash_in_full_text(h);
    assert(r.by_full.contains_key(t)) by {
        if r.by_truncated.contains_key(t) {
            texts_differ(h, r.by_truncated[t]);
        }
    }
    if let Some(g) = hash_in(s) {
        hex::hex_bytes_lengths(without_0x(s));
        hash_in_full_text(g);
    }
    if other.by_full.contains_key(t) {
        hash_in_full_text(other.by_full[t]);
    }
}

/// What a registry finds for a text is a hash of 32 bytes that the text stands for, as its whole
/// or its truncated text.
pub proof fn resolved_hash_fits(r: RegistryView, raw: Seq<char>)
    requires
        registry_ok(r),
    ensures
        resolved(r, raw) matches Some(h) ==> h.len() == 32 && (raw == full_text(h) || (raw
            == truncated_text(h) && stands_for(unresolved(raw), h))),
{
    if let Some(h) = resolved(r, raw) {
        if !r.by_full.contains_key(raw) {
            truncated_text_splits(h);
        }
    }
}

/// A hash logged with its middle left out and the same hash logged whole have the same key, where
/// the registry finds the one for the other.
pub proof fn truncated_and_whole_keys_agree(r: RegistryView, h: Seq<u8>)
    requires
        h.len() == 32,
        resolved(r, truncated_text(h)) == Some(h),
    ensures
        resolved_key(unresolved(truncated_text(h)), r) == hash_key(whole_hash(full_text(h))),
{
    hash_in_full_text(h);
}

proof fn with_hashes_ok(order: Seq<[u8; 32]>)
    ensures
        registry_ok(with_hashes(empty_registry(), order)),
    decreases order.len(),
{
    if order.len() > 0 {
        with_hashes_ok(order.drop_last());
    }
}

impl HashRegistry {
    /// A well formed registry knows hashes only by their own texts.
    pub proof fn knows_own_texts(&self)
        requires
            self.wf(),
        ensures
            registry_ok(self@),
    {
        with_hashes_ok(self.order@);
    }
}

} // verus!
