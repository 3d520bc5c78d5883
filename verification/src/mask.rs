//! Masks for the variable parts of a log message.
//!
//! A message is split at white space. The core of each token, that is the token
//! without the punctuation at its ends, is held against a fixed list of
//! patterns, and the first that matches decides which placeholder stands for it.

use vstd::prelude::*;

use crate::pattern;
use crate::text;

verus! {

/// A date with a time of day, or a time of day alone.
pub const TIMESTAMP_PATTERN: &'static str =
    r"^(?:\d{4}-\d{2}-\d{2}[T ]\d{2}:\d{2}:\d{2}(?:\.\d+)?(?:Z|[+-]\d{2}:?\d{2})?|\d{2}:\d{2}:\d{2})$";

/// A UUID in its usual notation.
pub const UUID_PATTERN: &'static str =
    r"^[0-9a-fA-F]{8}-[0-9a-fA-F]{4}-[0-9a-fA-F]{4}-[0-9a-fA-F]{4}-[0-9a-fA-F]{12}$";

/// A MAC address.
pub const MAC_PATTERN: &'static str = r"^(?:[0-9a-fA-F]{2}[:-]){5}[0-9a-fA-F]{2}$";

/// A process name with its id in brackets, as in `sshd[1234]`.
pub const PROCESS_PATTERN: &'static str = r"^([A-Za-z_][\w.-]*)\[(\d+)\]$";

/// The usual notations of an IPv6 address. MAC addresses have to be told apart
/// before.
pub const IPV6_PATTERN: &'static str = r"^(?:[0-9a-fA-F]{0,4}:){2,7}[0-9a-fA-F]{0,4}$";

/// An IPv4 address.
pub const IPV4_PATTERN: &'static str = r"^(?:\d{1,3}\.){3}\d{1,3}$";

/// A hexadecimal number with its prefix.
pub const HEX_PATTERN: &'static str = r"^0[xX][0-9a-fA-F]+$";

/// An absolute path.
pub const PATH_PATTERN: &'static str = r"^/[\w.-]+(?:/[\w.-]*)*$";

/// A number.
pub const NUMBER_PATTERN: &'static str = r"^\d+$";

/// Punctuation that is cut off at the ends of a token. Brackets are not among
/// it: they belong to the pattern of a process with its id.
pub open spec fn is_trimmed(c: char) -> bool {
    c == ',' || c == '.' || c == ':' || c == ';' || c == '"' || c == '\'' || c == '(' || c == ')'
}

fn is_trim_char(c: char) -> (trimmed: bool)
    ensures
        trimmed == is_trimmed(c),
{
    c == ',' || c == '.' || c == ':' || c == ';' || c == '"' || c == '\'' || c == '(' || c == ')'
}

/// How much punctuation a token starts with.
pub open spec fn lead_len(token: Seq<char>) -> nat
    decreases token.len(),
{
    if token.len() > 0 && is_trimmed(token[0]) {
        1 + lead_len(token.drop_first())
    } else {
        0
    }
}

/// How much punctuation a token ends with.
pub open spec fn trail_len(token: Seq<char>) -> nat
    decreases token.len(),
{
    if token.len() > 0 && is_trimmed(token.last()) {
        1 + trail_len(token.drop_last())
    } else {
        0
    }
}

/// The punctuation that a token starts with.
pub open spec fn lead_of(token: Seq<char>) -> Seq<char> {
    token.take(lead_len(token) as int)
}

/// What is left of a token without the punctuation that it starts with.
pub open spec fn after_lead(token: Seq<char>) -> Seq<char> {
    token.skip(lead_len(token) as int)
}

/// A token without the punctuation at its ends.
pub open spec fn core_of(token: Seq<char>) -> Seq<char> {
    after_lead(token).take(after_lead(token).len() - trail_len(after_lead(token)))
}

/// The punctuation that a token ends with, once its start is cut off.
pub open spec fn trail_of(token: Seq<char>) -> Seq<char> {
    after_lead(token).skip(after_lead(token).len() - trail_len(after_lead(token)))
}

proof fn lead_len_is_bounded(token: Seq<char>)
    ensures
        lead_len(token) <= token.len(),
    decreases token.len(),
{
    if token.len() > 0 && is_trimmed(token[0]) {
        lead_len_is_bounded(token.drop_first());
    }
}

proof fn trail_len_is_bounded(token: Seq<char>)
    ensures
        trail_len(token) <= token.len(),
    decreases token.len(),
{
    if token.len() > 0 && is_trimmed(token.last()) {
        trail_len_is_bounded(token.drop_last());
    }
}

/// Cutting the punctuation off loses nothing: the three parts make up the token
/// again.
pub proof fn split_loses_nothing(token: Seq<char>)
    ensures
        lead_of(token) + core_of(token) + trail_of(token) == token,
{
    lead_len_is_bounded(token);
    trail_len_is_bounded(after_lead(token));
    assert(lead_of(token) + core_of(token) + trail_of(token) =~= token);
}

/// Cuts the punctuation at both ends off a token.
pub fn split_punctuation(token: &str) -> (parts: (&str, &str, &str))
    ensures
        parts.0@ == lead_of(token@),
        parts.1@ == core_of(token@),
        parts.2@ == trail_of(token@),
{
    let chars = text::chars_of(token);
    let n: usize = chars.len();
    let mut start: usize = 0;
    proof {
        assert(token@.skip(0) =~= token@);
    }
    while start < n && is_trim_char(chars[start])
        invariant
            n == chars.len(),
            chars@ == token@,
            start <= n,
            lead_len(token@) == start + lead_len(token@.skip(start as int)),
        decreases n - start,
    {
        proof {
            assert(token@.skip(start as int).drop_first() =~= token@.skip(start as int + 1));
        }
        start += 1;
    }
    let mut end: usize = n;
    let ghost rest = token@.skip(start as int);
    proof {
        assert(lead_len(token@) == start);
        assert(rest.take(n - start) =~= rest);
    }
    while end > start && is_trim_char(chars[end - 1])
        invariant
            n == chars.len(),
            chars@ == token@,
            start <= end <= n,
            rest == token@.skip(start as int),
            trail_len(rest) == (n - end) + trail_len(rest.take(end - start)),
        decreases end,
    {
        proof {
            assert(rest.take(end - start).drop_last() =~= rest.take(end - 1 - start));
        }
        end -= 1;
    }
    proof {
        assert(trail_len(rest) == n - end);
        assert(token@.subrange(0, start as int) =~= lead_of(token@));
        assert(token@.subrange(start as int, end as int) =~= core_of(token@));
        assert(token@.subrange(end as int, n as int) =~= trail_of(token@));
    }
    (token.substring_char(0, start), token.substring_char(start, end), token.substring_char(end, n))
}

/// How often a character stands in a text.
pub open spec fn occurrences(s: Seq<char>, c: char) -> nat
    decreases s.len(),
{
    if s.len() == 0 {
        0
    } else {
        occurrences(s.drop_last(), c) + if s.last() == c {
            1nat
        } else {
            0nat
        }
    }
}

/// Counts how often a character stands in a text.
fn count_char(s: &str, c: char) -> (count: usize)
    ensures
        count == occurrences(s@, c),
{
    let chars = text::chars_of(s);
    let mut count: usize = 0;
    let mut i: usize = 0;
    while i < chars.len()
        invariant
            chars@ == s@,
            i <= chars.len(),
            count <= i,
            count == occurrences(s@.take(i as int), c),
        decreases chars.len() - i,
    {
        proof {
            assert(s@.take(i as int + 1).drop_last() =~= s@.take(i as int));
        }
        if chars[i] == c {
            count += 1;
        }
        i += 1;
    }
    proof {
        assert(s@.take(chars.len() as int) =~= s@);
    }
    count
}

/// What the patterns found in the core of a token.
pub struct CoreMatches {
    /// The core is a timestamp.
    pub timestamp: bool,
    /// The core is a UUID.
    pub uuid: bool,
    /// The core is a MAC address.
    pub mac: bool,
    /// The core is a process with its id: the name of the process.
    pub process: Option<String>,
    /// The core looks like an IPv6 address.
    pub ipv6: bool,
    /// The core is an IPv4 address.
    pub ipv4: bool,
    /// The core is a hexadecimal number.
    pub hex: bool,
    /// The core is an absolute path.
    pub path: bool,
    /// The core is a number.
    pub number: bool,
}

/// What stands for the core of a token, given what the patterns found in it.
/// The first kind that fits decides; a core that fits none stays as it is.
pub open spec fn masked_by(core: Seq<char>, found: CoreMatches) -> Seq<char> {
    if core.len() == 0 {
        Seq::empty()
    } else if found.timestamp {
        "<TIMESTAMP>"@
    } else if found.uuid {
        "<UUID>"@
    } else if found.mac {
        "<MAC>"@
    } else if found.process is Some {
        found.process->0@ + "[<PID>]"@
    } else if found.ipv6 && occurrences(core, ':') >= 2 {
        "<IPV6>"@
    } else if found.ipv4 {
        "<IPV4>"@
    } else if found.hex {
        "<HEX>"@
    } else if found.path {
        "<PATH>"@
    } else if found.number {
        "<NUM>"@
    } else {
        core
    }
}

/// Whether `found` is what the patterns find in the given core.
pub open spec fn finds(core: Seq<char>, found: CoreMatches) -> bool {
    &&& found.timestamp == pattern::regex_matches(TIMESTAMP_PATTERN@, core)
    &&& found.uuid == pattern::regex_matches(UUID_PATTERN@, core)
    &&& found.mac == pattern::regex_matches(MAC_PATTERN@, core)
    &&& match found.process {
        Some(name) => pattern::regex_first_group(PROCESS_PATTERN@, core) == Some(name@),
        None => pattern::regex_first_group(PROCESS_PATTERN@, core) is None,
    }
    &&& found.ipv6 == pattern::regex_matches(IPV6_PATTERN@, core)
    &&& found.ipv4 == pattern::regex_matches(IPV4_PATTERN@, core)
    &&& found.hex == pattern::regex_matches(HEX_PATTERN@, core)
    &&& found.path == pattern::regex_matches(PATH_PATTERN@, core)
    &&& found.number == pattern::regex_matches(NUMBER_PATTERN@, core)
}

/// What stands for the core of a token.
pub open spec fn masked_core(core: Seq<char>) -> Seq<char> {
    if core.len() == 0 {
        Seq::empty()
    } else if pattern::regex_matches(TIMESTAMP_PATTERN@, core) {
        "<TIMESTAMP>"@
    } else if pattern::regex_matches(UUID_PATTERN@, core) {
        "<UUID>"@
    } else if pattern::regex_matches(MAC_PATTERN@, core) {
        "<MAC>"@
    } else if pattern::regex_first_group(PROCESS_PATTERN@, core) is Some {
        pattern::regex_first_group(PROCESS_PATTERN@, core)->0 + "[<PID>]"@
    } else if pattern::regex_matches(IPV6_PATTERN@, core) && occurrences(core, ':') >= 2 {
        "<IPV6>"@
    } else if pattern::regex_matches(IPV4_PATTERN@, core) {
        "<IPV4>"@
    } else if pattern::regex_matches(HEX_PATTERN@, core) {
        "<HEX>"@
    } else if pattern::regex_matches(PATH_PATTERN@, core) {
        "<PATH>"@
    } else if pattern::regex_matches(NUMBER_PATTERN@, core) {
        "<NUM>"@
    } else {
        core
    }
}

/// What stands for a token: its punctuation stays, its core is masked.
pub open spec fn masked_token(token: Seq<char>) -> Seq<char> {
    lead_of(token) + masked_core(core_of(token)) + trail_of(token)
}

/// The masked tokens of a message.
pub open spec fn masked_message(message: Seq<char>) -> Seq<Seq<char>> {
    Seq::new(text::words(message).len(), |i: int| masked_token(text::words(message)[i]))
}

/// Chooses what stands for the core of a token from what the patterns found.
pub fn mask_by(core: &str, found: &CoreMatches) -> (masked: String)
    ensures
        masked@ == masked_by(core@, *found),
{
    if core.is_empty() {
        return String::new();
    }
    if found.timestamp {
        return "<TIMESTAMP>".to_string();
    }
    if found.uuid {
        return "<UUID>".to_string();
    }
    if found.mac {
        return "<MAC>".to_string();
    }
    if let Some(name) = &found.process {
        let mut masked = name.as_str().to_string();
        masked.append("[<PID>]");
        return masked;
    }
    if found.ipv6 && count_char(core, ':') >= 2 {
        return "<IPV6>".to_string();
    }
    if found.ipv4 {
        return "<IPV4>".to_string();
    }
    if found.hex {
        return "<HEX>".to_string();
    }
    if found.path {
        return "<PATH>".to_string();
    }
    if found.number {
        return "<NUM>".to_string();
    }
    core.to_string()
}

/// The compiled patterns.
pub struct MaskPatterns {
    timestamp: regex::Regex,
    uuid: regex::Regex,
    mac: regex::Regex,
    process: regex::Regex,
    ipv6: regex::Regex,
    ipv4: regex::Regex,
    hex: regex::Regex,
    path: regex::Regex,
    number: regex::Regex,
}

/// Whether a pattern is one of this module.
pub open spec fn is_mask_pattern(pattern: Seq<char>) -> bool {
    ||| pattern == TIMESTAMP_PATTERN@
    ||| pattern == UUID_PATTERN@
    ||| pattern == MAC_PATTERN@
    ||| pattern == PROCESS_PATTERN@
    ||| pattern == IPV6_PATTERN@
    ||| pattern == IPV4_PATTERN@
    ||| pattern == HEX_PATTERN@
    ||| pattern == PATH_PATTERN@
    ||| pattern == NUMBER_PATTERN@
}

/// Whether every pattern of this module compiles.
pub open spec fn patterns_compile() -> bool {
    &&& pattern::regex_compiles(TIMESTAMP_PATTERN@)
    &&& pattern::regex_compiles(UUID_PATTERN@)
    &&& pattern::regex_compiles(MAC_PATTERN@)
    &&& pattern::regex_compiles(PROCESS_PATTERN@)
    &&& pattern::regex_compiles(IPV6_PATTERN@)
    &&& pattern::regex_compiles(IPV4_PATTERN@)
    &&& pattern::regex_compiles(HEX_PATTERN@)
    &&& pattern::regex_compiles(PATH_PATTERN@)
    &&& pattern::regex_compiles(NUMBER_PATTERN@)
}

impl MaskPatterns {
    #[verifier::type_invariant]
    spec fn holds_the_patterns(&self) -> bool {
        &&& pattern::regex_source(self.timestamp) == TIMESTAMP_PATTERN@
        &&& pattern::regex_source(self.uuid) == UUID_PATTERN@
        &&& pattern::regex_source(self.mac) == MAC_PATTERN@
        &&& pattern::regex_source(self.process) == PROCESS_PATTERN@
        &&& pattern::regex_source(self.ipv6) == IPV6_PATTERN@
        &&& pattern::regex_source(self.ipv4) == IPV4_PATTERN@
        &&& pattern::regex_source(self.hex) == HEX_PATTERN@
        &&& pattern::regex_source(self.path) == PATH_PATTERN@
        &&& pattern::regex_source(self.number) == NUMBER_PATTERN@
        &&& placeholders_pass()
    }

    /// Compiles the patterns; none if one of them does not compile.
    pub fn new() -> (patterns: Option<MaskPatterns>)
        ensures
            patterns is Some <==> patterns_compile(),
    {
        match (
            pattern::compile(TIMESTAMP_PATTERN),
            pattern::compile(UUID_PATTERN),
            pattern::compile(MAC_PATTERN),
            pattern::compile(PROCESS_PATTERN),
            pattern::compile(IPV6_PATTERN),
            pattern::compile(IPV4_PATTERN),
            pattern::compile(HEX_PATTERN),
            pattern::compile(PATH_PATTERN),
            pattern::compile(NUMBER_PATTERN),
        ) {
            (
                Ok(timestamp),
                Ok(uuid),
                Ok(mac),
                Ok(process),
                Ok(ipv6),
                Ok(ipv4),
                Ok(hex),
                Ok(path),
                Ok(number),
            ) => {
                proof {
                    assert forall|core: Seq<char>|
                        core.contains('<') implies #[trigger] fits_nothing(core) by {}
                }
                Some(MaskPatterns { timestamp, uuid, mac, process, ipv6, ipv4, hex, path, number })
            },
            _ => None,
        }
    }

    /// Holds the core of a token against every pattern.
    pub fn find(&self, core: &str) -> (found: CoreMatches)
        ensures
            finds(core@, found),
    {
        proof {
            use_type_invariant(self);
        }
        CoreMatches {
            timestamp: pattern::is_match(&self.timestamp, core),
            uuid: pattern::is_match(&self.uuid, core),
            mac: pattern::is_match(&self.mac, core),
            process: pattern::first_group(&self.process, core),
            ipv6: pattern::is_match(&self.ipv6, core),
            ipv4: pattern::is_match(&self.ipv4, core),
            hex: pattern::is_match(&self.hex, core),
            path: pattern::is_match(&self.path, core),
            number: pattern::is_match(&self.number, core),
        }
    }
}

/// Masks the core of a token.
pub fn mask_core(patterns: &MaskPatterns, core: &str) -> (masked: String)
    ensures
        masked@ == masked_core(core@),
{
    let found = patterns.find(core);
    mask_by(core, &found)
}

/// Masks a token; the punctuation at its ends stays.
pub fn mask_token(patterns: &MaskPatterns, token: &str) -> (masked: String)
    ensures
        masked@ == masked_token(token@),
{
    let (lead, core, trail) = split_punctuation(token);
    let mut masked = lead.to_string();
    masked.append(mask_core(patterns, core).as_str());
    masked.append(trail);
    masked
}

/// Splits a message at white space and masks every token. Every token of the result is
/// a word, and to mask the result again, joined with spaces, changes nothing.
pub fn mask_message(patterns: &MaskPatterns, message: &str) -> (tokens: Vec<String>)
    ensures
        text::texts(tokens@) == masked_message(message@),
        forall|i: int| 0 <= i < tokens@.len() ==> text::is_word(#[trigger] text::texts(tokens@)[i]),
        masked_message(text::joined(text::texts(tokens@), " "@)) == text::texts(tokens@),
{
    let parts = text::split_words(message);
    let mut tokens: Vec<String> = Vec::new();
    let mut i: usize = 0;
    while i < parts.len()
        invariant
            text::texts(parts@) == text::words(message@),
            i <= parts.len(),
            tokens.len() == i,
            forall|j: int| 0 <= j < i ==> (#[trigger] tokens@[j])@ == masked_token(text::texts(parts@)[j]),
        decreases parts.len() - i,
    {
        tokens.push(mask_token(patterns, parts[i].as_str()));
        i += 1;
    }
    proof {
        assert(text::texts(tokens@) =~= masked_message(message@));
        use_type_invariant(patterns);
        masking_again_changes_nothing(message@);
    }
    tokens
}

/// Every token is masked on its own, in order: none is lost, and a message is masked
/// to nothing exactly if it is all white space. What stands before white space and
/// what stands after it are masked apart from each other.
pub proof fn tokens_are_masked_apart(a: Seq<char>, separator: char, b: Seq<char>)
    requires
        text::white_space(separator),
    ensures
        masked_message(a.push(separator) + b) == masked_message(a) + masked_message(b),
        masked_message(a).len() == text::words(a).len(),
        masked_message(a).len() == 0 <==> forall|i: int|
            0 <= i < a.len() ==> text::white_space(#[trigger] a[i]),
{
    text::words_of_two_parts(a, separator, b);
    text::words_are_words(a);
    assert(masked_message(a.push(separator) + b) =~= masked_message(a) + masked_message(b));
}

/// Whether no pattern finds anything in a core.
pub open spec fn fits_nothing(core: Seq<char>) -> bool {
    &&& !pattern::regex_matches(TIMESTAMP_PATTERN@, core)
    &&& !pattern::regex_matches(UUID_PATTERN@, core)
    &&& !pattern::regex_matches(MAC_PATTERN@, core)
    &&& pattern::regex_first_group(PROCESS_PATTERN@, core) is None
    &&& !pattern::regex_matches(IPV6_PATTERN@, core)
    &&& !pattern::regex_matches(IPV4_PATTERN@, core)
    &&& !pattern::regex_matches(HEX_PATTERN@, core)
    &&& !pattern::regex_matches(PATH_PATTERN@, core)
    &&& !pattern::regex_matches(NUMBER_PATTERN@, core)
}

/// Whether the name of a process stands at the start of a core, and does not start
/// with punctuation that is cut off.
pub open spec fn starts_with_name(core: Seq<char>, name: Seq<char>) -> bool {
    &&& 0 < name.len() <= core.len()
    &&& core.take(name.len() as int) == name
    &&& !is_trimmed(name[0])
}

/// Whether the patterns pass placeholders by: none of them fits a core with the sign that
/// a placeholder starts with; and the name of a process is what its core starts with.
pub open spec fn placeholders_pass() -> bool {
    &&& forall|core: Seq<char>| core.contains('<') ==> #[trigger] fits_nothing(core)
    &&& forall|core: Seq<char>|
        (#[trigger] pattern::regex_first_group(PROCESS_PATTERN@, core)) matches Some(name)
            ==> starts_with_name(core, name)
}

/// Masking a masked line again changes nothing, and every token of it is a word.
proof fn masking_again_changes_nothing(message: Seq<char>)
    requires
        placeholders_pass(),
    ensures
        masked_message(text::joined(masked_message(message), " "@)) == masked_message(message),
        forall|i: int|
            0 <= i < masked_message(message).len() ==> text::is_word(
                #[trigger] masked_message(message)[i],
            ),
{
    let tokens = masked_message(message);
    text::words_are_words(message);
    assert forall|i: int| 0 <= i < tokens.len() implies text::is_word(#[trigger] tokens[i])
        && masked_token(tokens[i]) == tokens[i] by {
        assert(text::is_word(text::words(message)[i]));
        masking_a_token_again(text::words(message)[i]);
    }
    text::splitting_undoes_joining(tokens);
    assert(masked_message(text::joined(tokens, " "@)) =~= tokens);
}

/// The punctuation that is cut off at the ends of a token is punctuation.
proof fn cut_off_is_punctuation(token: Seq<char>)
    ensures
        forall|i: int| 0 <= i < lead_of(token).len() ==> is_trimmed(#[trigger] lead_of(token)[i]),
        forall|i: int| 0 <= i < trail_of(token).len() ==> is_trimmed(
            #[trigger] trail_of(token)[i],
        ),
        core_of(token).len() == 0 ==> trail_of(token).len() == 0,
{
    lead_is_punctuation(token);
    trail_is_punctuation(after_lead(token));
    lead_len_is_bounded(token);
    trail_len_is_bounded(after_lead(token));
    lead_ends(token);
    if core_of(token).len() == 0 && trail_of(token).len() > 0 {
        assert(trail_of(token)[0] == after_lead(token)[0]);
    }
}

proof fn lead_is_punctuation(token: Seq<char>)
    ensures
        lead_len(token) <= token.len(),
        forall|i: int| 0 <= i < lead_len(token) ==> is_trimmed(#[trigger] token[i]),
    decreases token.len(),
{
    if token.len() > 0 && is_trimmed(token[0]) {
        lead_is_punctuation(token.drop_first());
        assert forall|i: int| 0 <= i < lead_len(token) implies is_trimmed(#[trigger] token[i]) by {
            if i > 0 {
                assert(token.drop_first()[i - 1] == token[i]);
            }
        }
    }
}

/// What follows the punctuation at the start does not start with punctuation.
proof fn lead_ends(token: Seq<char>)
    ensures
        after_lead(token).len() > 0 ==> !is_trimmed(after_lead(token)[0]),
    decreases token.len(),
{
    lead_len_is_bounded(token);
    if token.len() > 0 && is_trimmed(token[0]) {
        lead_ends(token.drop_first());
        lead_len_is_bounded(token.drop_first());
        assert(after_lead(token) =~= after_lead(token.drop_first()));
    }
}

proof fn trail_is_punctuation(token: Seq<char>)
    ensures
        trail_len(token) <= token.len(),
        forall|i: int|
            token.len() - trail_len(token) <= i < token.len() ==> is_trimmed(#[trigger] token[i]),
    decreases token.len(),
{
    if token.len() > 0 && is_trimmed(token.last()) {
        trail_is_punctuation(token.drop_last());
        assert forall|i: int|
            token.len() - trail_len(token) <= i < token.len() implies is_trimmed(
            #[trigger] token[i],
        ) by {
            if i < token.len() - 1 {
                assert(token.drop_last()[i] == token[i]);
            }
        }
    }
}

/// How much punctuation a text starts with that is put together of punctuation and
/// something that does not start with it.
proof fn lead_of_parts(lead: Seq<char>, rest: Seq<char>)
    requires
        forall|i: int| 0 <= i < lead.len() ==> is_trimmed(#[trigger] lead[i]),
        rest.len() > 0,
        !is_trimmed(rest[0]),
    ensures
        lead_len(lead + rest) == lead.len(),
    decreases lead.len(),
{
    let whole = lead + rest;
    if lead.len() > 0 {
        assert(whole[0] == lead[0]);
        assert(whole.drop_first() =~= lead.drop_first() + rest);
        lead_of_parts(lead.drop_first(), rest);
    } else {
        assert(whole[0] == rest[0]);
    }
}

/// How much punctuation a text ends with that is put together of something that does
/// not end with it and punctuation.
proof fn trail_of_parts(rest: Seq<char>, trail: Seq<char>)
    requires
        forall|i: int| 0 <= i < trail.len() ==> is_trimmed(#[trigger] trail[i]),
        rest.len() > 0,
        !is_trimmed(rest.last()),
    ensures
        trail_len(rest + trail) == trail.len(),
    decreases trail.len(),
{
    let whole = rest + trail;
    if trail.len() > 0 {
        assert(whole.last() == trail.last());
        assert(whole.drop_last() =~= rest + trail.drop_last());
        trail_of_parts(rest, trail.drop_last());
    } else {
        assert(whole =~= rest);
    }
}

/// Whether a text is a placeholder, or ends with one: it does not start or end with
/// punctuation that is cut off, and it holds the sign that a placeholder starts with.
spec fn is_placeholder(masked: Seq<char>) -> bool {
    &&& text::is_word(masked)
    &&& !is_trimmed(masked[0])
    &&& !is_trimmed(masked.last())
    &&& masked.contains('<')
}

/// The core of a token stays as it is, or becomes a placeholder.
proof fn masked_core_is_a_placeholder(core: Seq<char>)
    requires
        placeholders_pass(),
        text::is_word(core),
    ensures
        masked_core(core) == core || is_placeholder(masked_core(core)),
{
    reveal_strlit("<TIMESTAMP>");
    reveal_strlit("<UUID>");
    reveal_strlit("<MAC>");
    reveal_strlit("[<PID>]");
    reveal_strlit("<IPV6>");
    reveal_strlit("<IPV4>");
    reveal_strlit("<HEX>");
    reveal_strlit("<PATH>");
    reveal_strlit("<NUM>");
    let masked = masked_core(core);
    if pattern::regex_matches(TIMESTAMP_PATTERN@, core) || pattern::regex_matches(
        UUID_PATTERN@,
        core,
    ) || pattern::regex_matches(MAC_PATTERN@, core) {
        assert(masked[0] == '<');
    } else if pattern::regex_first_group(PROCESS_PATTERN@, core) is Some {
        let name = pattern::regex_first_group(PROCESS_PATTERN@, core)->0;
        assert(starts_with_name(core, name));
        assert(masked == name + "[<PID>]"@);
        assert(masked[name.len() as int + 1] == '<');
        assert forall|i: int| 0 <= i < masked.len() implies !text::white_space(
            #[trigger] masked[i],
        ) by {
            if i < name.len() {
                assert(core.take(name.len() as int)[i] == core[i]);
            }
        }
        assert(masked[0] == name[0]);
    } else if masked != core {
        assert(masked[0] == '<');
    }
}

proof fn masking_a_token_again(token: Seq<char>)
    requires
        placeholders_pass(),
        text::is_word(token),
    ensures
        text::is_word(masked_token(token)),
        masked_token(masked_token(token)) == masked_token(token),
{
    let lead = lead_of(token);
    let core = core_of(token);
    let trail = trail_of(token);
    let masked = masked_core(core);
    let whole = masked_token(token);
    split_loses_nothing(token);
    cut_off_is_punctuation(token);
    assert(core.len() == 0 ==> masked =~= core);
    if masked == core {
        assert(whole == token);
    } else {
        assert(text::is_word(core)) by {
            assert forall|i: int| 0 <= i < core.len() implies !text::white_space(
                #[trigger] core[i],
            ) by {
                assert((lead + core + trail)[lead.len() + i] == core[i]);
                assert(!text::white_space(token[lead.len() + i]));
            }
        }
        masked_core_is_a_placeholder(core);
        assert(whole =~= lead + (masked + trail));
        lead_of_parts(lead, masked + trail);
        assert(lead_of(whole) =~= lead);
        assert(after_lead(whole) =~= masked + trail);
        trail_of_parts(masked, trail);
        assert(core_of(whole) =~= masked);
        assert(trail_of(whole) =~= trail);
        assert(fits_nothing(masked));
        assert(masked_core(masked) == masked);
        assert forall|i: int| 0 <= i < whole.len() implies !text::white_space(
            #[trigger] whole[i],
        ) by {
            if i < lead.len() {
                assert((lead + core + trail)[i] == lead[i]);
                assert(!text::white_space(token[i]));
            } else if i < lead.len() + masked.len() {
                assert(whole[i] == masked[i - lead.len()]);
            } else {
                let j = i - lead.len() - masked.len();
                assert(whole[i] == trail[j]);
                assert((lead + core + trail)[lead.len() + core.len() + j] == trail[j]);
                assert(!text::white_space(token[lead.len() + core.len() + j]));
            }
        }
    }
}

/// Punctuation around a core stays, and the core is masked as if it stood alone: commas,
/// full stops, colons, semicolons, both kinds of quotes and round brackets, as many as
/// there are on either side. Nothing else is cut off.
pub proof fn punctuation_stays_around_a_masked_core(
    lead: Seq<char>,
    core: Seq<char>,
    trail: Seq<char>,
)
    requires
        forall|i: int|
            0 <= i < lead.len() ==> seq![',', '.', ':', ';', '"', '\'', '(', ')'].contains(
                #[trigger] lead[i],
            ),
        forall|i: int|
            0 <= i < trail.len() ==> seq![',', '.', ':', ';', '"', '\'', '(', ')'].contains(
                #[trigger] trail[i],
            ),
        core.len() > 0,
        !seq![',', '.', ':', ';', '"', '\'', '(', ')'].contains(core[0]),
        !seq![',', '.', ':', ';', '"', '\'', '(', ')'].contains(core.last()),
    ensures
        masked_token(lead + core + trail) == lead + masked_core(core) + trail,
        lead_of(lead + core + trail) == lead,
        core_of(lead + core + trail) == core,
        trail_of(lead + core + trail) == trail,
{
    let marks = seq![',', '.', ':', ';', '"', '\'', '(', ')'];
    marks_are_trimmed();
    assert forall|i: int| 0 <= i < lead.len() implies is_trimmed(#[trigger] lead[i]) by {
        assert(marks.contains(lead[i]));
    }
    assert forall|i: int| 0 <= i < trail.len() implies is_trimmed(#[trigger] trail[i]) by {
        assert(marks.contains(trail[i]));
    }
    let token = lead + core + trail;
    let rest = core + trail;
    assert(token =~= lead + rest);
    assert(rest[0] == core[0]);
    lead_of_parts(lead, rest);
    assert(after_lead(token) =~= rest);
    trail_of_parts(core, trail);
    assert(lead_of(token) =~= lead);
    assert(core_of(token) =~= core);
    assert(trail_of(token) =~= trail);
}

/// The marks that are cut off are these eight and no others.
proof fn marks_are_trimmed()
    ensures
        forall|c: char|
            #[trigger] is_trimmed(c) <==> seq![',', '.', ':', ';', '"', '\'', '(', ')'].contains(c),
{
    let marks = seq![',', '.', ':', ';', '"', '\'', '(', ')'];
    assert(marks[0] == ',' && marks[1] == '.' && marks[2] == ':' && marks[3] == ';');
    assert(marks[4] == '"' && marks[5] == '\'' && marks[6] == '(' && marks[7] == ')');
    assert forall|c: char| #[trigger] is_trimmed(c) <==> marks.contains(c) by {
        if marks.contains(c) {
            let i = choose|i: int| 0 <= i < marks.len() && marks[i] == c;
            assert(0 <= i < 8);
        }
    }
}

/// A token that is nothing but punctuation stays as it is.
pub proof fn punctuation_alone_stays(token: Seq<char>)
    requires
        forall|i: int|
            0 <= i < token.len() ==> seq![',', '.', ':', ';', '"', '\'', '(', ')'].contains(
                #[trigger] token[i],
            ),
    ensures
        masked_token(token) == token,
{
    marks_are_trimmed();
    assert forall|i: int| 0 <= i < token.len() implies is_trimmed(#[trigger] token[i]) by {
        assert(seq![',', '.', ':', ';', '"', '\'', '(', ')'].contains(token[i]));
    }
    lead_is_punctuation(token);
    lead_ends(token);
    lead_len_is_bounded(token);
    if after_lead(token).len() > 0 {
        assert(after_lead(token)[0] == token[lead_len(token) as int]);
    }
    assert(core_of(token).len() == 0);
    split_loses_nothing(token);
    assert(masked_core(core_of(token)) =~= core_of(token));
}

/// Every kind of value has its placeholder. A core of digits that fits no other pattern is
/// a number, one that starts with `0x` is a hexadecimal number, and so on; where it fits
/// several, the first kind decides, in the order of these clauses. What fits none stays
/// as it is.
pub proof fn every_kind_has_its_placeholder(core: Seq<char>)
    requires
        core.len() > 0,
    ensures
        ({
            let timestamp = pattern::regex_matches(
                r"^(?:\d{4}-\d{2}-\d{2}[T ]\d{2}:\d{2}:\d{2}(?:\.\d+)?(?:Z|[+-]\d{2}:?\d{2})?|\d{2}:\d{2}:\d{2})$"@,
                core,
            );
            let uuid = pattern::regex_matches(
                r"^[0-9a-fA-F]{8}-[0-9a-fA-F]{4}-[0-9a-fA-F]{4}-[0-9a-fA-F]{4}-[0-9a-fA-F]{12}$"@,
                core,
            );
            let mac = pattern::regex_matches(r"^(?:[0-9a-fA-F]{2}[:-]){5}[0-9a-fA-F]{2}$"@, core);
            let process = pattern::regex_first_group(r"^([A-Za-z_][\w.-]*)\[(\d+)\]$"@, core);
            let ipv6 = pattern::regex_matches(
                r"^(?:[0-9a-fA-F]{0,4}:){2,7}[0-9a-fA-F]{0,4}$"@,
                core,
            ) && exists|i: int, j: int|
                0 <= i < j < core.len() && #[trigger] core[i] == ':' && #[trigger] core[j] == ':';
            let ipv4 = pattern::regex_matches(r"^(?:\d{1,3}\.){3}\d{1,3}$"@, core);
            let hex = pattern::regex_matches(r"^0[xX][0-9a-fA-F]+$"@, core);
            let path = pattern::regex_matches(r"^/[\w.-]+(?:/[\w.-]*)*$"@, core);
            let number = pattern::regex_matches(r"^\d+$"@, core);
            let earlier = timestamp || uuid || mac;
            let later = earlier || process is Some;
            &&& timestamp ==> masked_core(core) == "<TIMESTAMP>"@
            &&& uuid && !timestamp ==> masked_core(core) == "<UUID>"@
            &&& mac && !timestamp && !uuid ==> masked_core(core) == "<MAC>"@
            &&& !earlier ==> (process matches Some(name) ==> masked_core(core) == name
                + "[<PID>]"@)
            &&& ipv6 && !later ==> masked_core(core) == "<IPV6>"@
            &&& ipv4 && !later && !ipv6 ==> masked_core(core) == "<IPV4>"@
            &&& hex && !later && !ipv6 && !ipv4 ==> masked_core(core) == "<HEX>"@
            &&& path && !later && !ipv6 && !ipv4 && !hex ==> masked_core(core) == "<PATH>"@
            &&& number && !later && !ipv6 && !ipv4 && !hex && !path ==> masked_core(core)
                == "<NUM>"@
            &&& !later && !ipv6 && !ipv4 && !hex && !path && !number ==> masked_core(core) == core
        }),
{
    two_occurrences(core, ':');
}

/// A character occurs twice exactly if it stands at two places.
proof fn two_occurrences(s: Seq<char>, c: char)
    ensures
        occurrences(s, c) >= 1 <==> exists|i: int| 0 <= i < s.len() && #[trigger] s[i] == c,
        occurrences(s, c) >= 2 <==> exists|i: int, j: int|
            0 <= i < j < s.len() && #[trigger] s[i] == c && #[trigger] s[j] == c,
    decreases s.len(),
{
    if s.len() > 0 {
        let shorter = s.drop_last();
        two_occurrences(shorter, c);
        let last = s.len() - 1;
        if occurrences(shorter, c) >= 1 {
            let i = choose|i: int| 0 <= i < shorter.len() && #[trigger] shorter[i] == c;
            assert(s[i] == c);
        }
        if occurrences(shorter, c) >= 2 {
            let (i, j) = choose|i: int, j: int|
                0 <= i < j < shorter.len() && #[trigger] shorter[i] == c && #[trigger] shorter[j]
                    == c;
            assert(s[i] == c && s[j] == c);
        }
        if s[last] == c && occurrences(shorter, c) >= 1 {
            let i = choose|i: int| 0 <= i < shorter.len() && #[trigger] shorter[i] == c;
            assert(s[i] == c && s[last] == c && i < last);
        }
        if exists|i: int| 0 <= i < s.len() && #[trigger] s[i] == c {
            let i = choose|i: int| 0 <= i < s.len() && #[trigger] s[i] == c;
            if i < last {
                assert(shorter[i] == c);
            }
        }
        if exists|i: int, j: int|
            0 <= i < j < s.len() && #[trigger] s[i] == c && #[trigger] s[j] == c {
            let (i, j) = choose|i: int, j: int|
                0 <= i < j < s.len() && #[trigger] s[i] == c && #[trigger] s[j] == c;
            assert(shorter[i] == c);
            if j < last {
                assert(shorter[j] == c);
            }
        }
    }
}

/// What is chosen from what the patterns found in a core is what stands for it, and a
/// message of one word is masked as that word.
pub proof fn a_core_is_masked_by_what_is_found(core: Seq<char>, found: CoreMatches)
    requires
        finds(core, found),
    ensures
        masked_by(core, found) == masked_core(core),
{
}

/// A message is masked word by word: as many tokens come out as there are words, each of
/// them its word with its punctuation around the masked core, and a token or a core alone
/// is masked in the same way.
pub proof fn messages_are_masked_word_by_word(
    patterns: &MaskPatterns,
    message: &str,
    tokens: Vec<String>,
    token: &str,
    masked: String,
    core: &str,
    masked_alone: String,
    i: int,
)
    requires
        call_ensures(mask_message, (patterns, message), tokens),
        call_ensures(mask_token, (patterns, token), masked),
        call_ensures(mask_core, (patterns, core), masked_alone),
        0 <= i < text::words(message@).len(),
    ensures
        tokens@.len() == text::words(message@).len(),
        tokens@[i]@ == masked_token(text::words(message@)[i]),
        token@ == text::words(message@)[i] ==> masked@ == tokens@[i]@,
        masked@ == lead_of(token@) + masked_core(core_of(token@)) + trail_of(token@),
        masked_alone@ == masked_core(core@),
{
    assert(text::texts(tokens@)[i] == tokens@[i]@);
    assert(text::texts(tokens@).len() == tokens@.len());
}

/// The parts of a token are its punctuation and its core.
pub proof fn a_token_is_split_at_its_punctuation(token: &str, parts: (&str, &str, &str))
    requires
        call_ensures(split_punctuation, (token,), parts),
    ensures
        parts.0@ + parts.1@ + parts.2@ == token@,
        parts.1@ == core_of(token@),
        forall|i: int|
            0 <= i < parts.0@.len() ==> seq![',', '.', ':', ';', '"', '\'', '(', ')'].contains(
                #[trigger] parts.0@[i],
            ),
        parts.1@.len() > 0 ==> !seq![',', '.', ':', ';', '"', '\'', '(', ')'].contains(parts.1@[0]),
{
    split_loses_nothing(token@);
    cut_off_is_punctuation(token@);
    marks_are_trimmed();
    lead_ends(token@);
    trail_len_is_bounded(after_lead(token@));
    if parts.1@.len() > 0 {
        assert(parts.1@[0] == after_lead(token@)[0]);
    }
    assert forall|i: int| 0 <= i < parts.0@.len() implies seq![
        ',',
        '.',
        ':',
        ';',
        '"',
        '\'',
        '(',
        ')',
    ].contains(#[trigger] parts.0@[i]) by {
        assert(is_trimmed(lead_of(token@)[i]));
    }
}

/// A core is found to be what the patterns say that it is.
pub proof fn a_core_is_held_against_every_pattern(
    patterns: &MaskPatterns,
    core: &str,
    found: CoreMatches,
    masked: String,
)
    requires
        call_ensures(MaskPatterns::find, (patterns, core), found),
        call_ensures(mask_by, (core, &found), masked),
    ensures
        found.number == pattern::regex_matches(r"^\d+$"@, core@),
        found.ipv4 == pattern::regex_matches(r"^(?:\d{1,3}\.){3}\d{1,3}$"@, core@),
        found.hex == pattern::regex_matches(r"^0[xX][0-9a-fA-F]+$"@, core@),
        found.path == pattern::regex_matches(r"^/[\w.-]+(?:/[\w.-]*)*$"@, core@),
        masked@ == masked_core(core@),
{
    a_core_is_masked_by_what_is_found(core@, found);
}

} // verus!
