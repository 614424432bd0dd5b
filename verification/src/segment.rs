//! The message segmenter: consumes the transcript one line at a time,
//! keeps at most one message under construction, and emits completed
//! messages in transcript order.
//!
//! A line that matches a header grammar starts a new message (sealing the
//! one under construction, if any); a header line whose captured content
//! matches a configured system-notice pattern seals the pending message but
//! emits nothing of its own; any other line is appended verbatim to the
//! pending message, or dropped silently when none is pending.

use vstd::prelude::*;

use crate::ParseError;
use crate::classify::{MessageType, detect_message_type, spec_classify};
use crate::text::{contains_str, contains_sub, first_colon_from, find_colon_from, trim, trim_str, str_eq};
use crate::timestamp::{
    Grammar, Normalizer, Timestamp, char_at_is, default_grammars, lex_at, lex_day_slash_seconds,
    lit, spec_normalize, try_lex_at,
};

verus! {

/// A durable output record: one message of the transcript.
#[derive(Debug, Clone)]
pub struct Message {
    /// 1-based ordinal, assigned in emission order, independent of the
    /// input's textual format.
    pub id: u64,
    pub timestamp: Timestamp,
    /// The sender's display name exactly as it appeared in the header,
    /// trimmed of surrounding whitespace; no identity resolution.
    pub sender: String,
    /// The header line's trailing text, trimmed, followed by each
    /// continuation line verbatim, joined by single newlines.
    pub content: String,
    pub message_type: MessageType,
}

/// The mathematical shadow of a `Message`.
pub struct MessageModel {
    pub id: u64,
    pub timestamp: Timestamp,
    pub sender: Seq<char>,
    pub content: Seq<char>,
    pub message_type: MessageType,
}

impl View for Message {
    type V = MessageModel;

    open spec fn view(&self) -> MessageModel {
        MessageModel {
            id: self.id,
            timestamp: self.timestamp,
            sender: self.sender@,
            content: self.content@,
            message_type: self.message_type,
        }
    }
}

/// A message under construction: header fields captured, content still
/// absorbing continuation lines.
pub struct Accumulator {
    pub timestamp: Timestamp,
    pub sender: String,
    pub content: String,
}

/// The mathematical shadow of an `Accumulator`.
pub struct AccumModel {
    pub timestamp: Timestamp,
    pub sender: Seq<char>,
    pub content: Seq<char>,
}

impl View for Accumulator {
    type V = AccumModel;

    open spec fn view(&self) -> AccumModel {
        AccumModel { timestamp: self.timestamp, sender: self.sender@, content: self.content@ }
    }
}

/// The per-line parse result of a header grammar: raw captured groups.
pub struct HeaderModel {
    pub ts: Seq<char>,
    pub sender: Seq<char>,
    pub content: Seq<char>,
}

/// The exec counterpart of `HeaderModel`.
pub struct Header {
    pub ts_text: String,
    pub sender: String,
    pub content: String,
}

/// The sender and content groups of a header line, from position `i`: the
/// sender runs to the first colon (at least one character, no colon
/// within), a single space follows the colon, and the non-empty rest is
/// the content.
pub open spec fn spec_sender_content(line: Seq<char>, i: int) -> Option<(Seq<char>, Seq<char>)> {
    match first_colon_from(line, i) {
        None => None,
        Some(k) => if k > i && k + 2 < line.len() && line[k + 1] == ' ' {
            Some((line.subrange(i, k), line.subrange(k + 2, line.len() as int)))
        } else {
            None
        },
    }
}

/// A bracketed header line: `[DD/MM/YYYY, HH:MM:SS] sender: content`.
pub open spec fn spec_header_bracketed(line: Seq<char>) -> Option<HeaderModel> {
    if lit(line, 0, '[') {
        match lex_day_slash_seconds(line, 1) {
            Some((f, j)) => if lit(line, j, ']') && lit(line, j + 1, ' ') {
                match spec_sender_content(line, j + 2) {
                    Some((snd, cnt)) => Some(
                        HeaderModel { ts: line.subrange(1, j), sender: snd, content: cnt },
                    ),
                    None => None,
                }
            } else {
                None
            },
            None => None,
        }
    } else {
        None
    }
}

/// A dash-separated header line: `<timestamp> - sender: content`, with the
/// timestamp in grammar `g`.
pub open spec fn spec_header_dashed(g: Grammar, line: Seq<char>) -> Option<HeaderModel> {
    match lex_at(g, line, 0) {
        Some((f, j)) => if lit(line, j, ' ') && lit(line, j + 1, '-') && lit(line, j + 2, ' ') {
            match spec_sender_content(line, j + 3) {
                Some((snd, cnt)) => Some(
                    HeaderModel { ts: line.subrange(0, j), sender: snd, content: cnt },
                ),
                None => None,
            }
        } else {
            None
        },
        None => None,
    }
}

/// The header reading of a line, if any: the bracketed form first, then the
/// dashed twelve-hour form, then the dashed twenty-four-hour form.
pub open spec fn spec_header(line: Seq<char>) -> Option<HeaderModel> {
    match spec_header_bracketed(line) {
        Some(h) => Some(h),
        None => match spec_header_dashed(Grammar::DaySlashTwelveHour, line) {
            Some(h) => Some(h),
            None => spec_header_dashed(Grammar::DaySlashShort, line),
        },
    }
}

/// Whether `content` matches any configured system-notice pattern.
pub open spec fn spec_is_system(content: Seq<char>, patterns: Seq<Seq<char>>) -> bool {
    exists|k: int| 0 <= k < patterns.len() && contains_sub(content, #[trigger] patterns[k])
}

/// The default system-notice patterns: encryption notices, group creation
/// and membership changes, security-code changes, and deletion notices.
/// The media-omitted marker is deliberately not among them: a lone media
/// marker is an ordinary message of type `Media`. An empty set reproduces
/// the variant that filters nothing.
pub open spec fn default_system_patterns() -> Seq<Seq<char>> {
    seq![
        "Messages and calls are end-to-end encrypted"@,
        "created this group"@,
        "You created group"@,
        "added you"@,
        "Security code changed"@,
        "This message was deleted"@,
    ]
}

/// The ghost configuration of one segmentation run.
pub struct SegConfig {
    pub grammars: Seq<Grammar>,
    pub offset_seconds: i32,
    pub patterns: Seq<Seq<char>>,
}

/// The ghost state of the segmenter between lines.
pub struct SegState {
    pub out: Seq<MessageModel>,
    pub pending: Option<AccumModel>,
}

/// Sealing: the output sequence once the pending accumulator, if any, is
/// classified, numbered and emitted.
pub open spec fn spec_seal(st: SegState) -> Seq<MessageModel> {
    match st.pending {
        None => st.out,
        Some(a) => st.out.push(
            MessageModel {
                id: (st.out.len() + 1) as u64,
                timestamp: a.timestamp,
                sender: a.sender,
                content: a.content,
                message_type: spec_classify(a.content),
            },
        ),
    }
}

/// One transition of the segmenter on one line; an error carries the raw
/// timestamp text that failed normalization.
pub open spec fn spec_step(cfg: SegConfig, st: SegState, line: Seq<char>) -> Result<
    SegState,
    Seq<char>,
> {
    match spec_header(line) {
        None => match st.pending {
            None => Ok(st),
            Some(a) => Ok(
                SegState {
                    out: st.out,
                    pending: Some(
                        AccumModel {
                            timestamp: a.timestamp,
                            sender: a.sender,
                            content: a.content + seq!['\n'] + line,
                        },
                    ),
                },
            ),
        },
        Some(h) => {
            let sealed = spec_seal(st);
            if spec_is_system(h.content, cfg.patterns) {
                Ok(SegState { out: sealed, pending: None })
            } else {
                match spec_normalize(cfg.grammars, h.ts) {
                    Some(f) => Ok(
                        SegState {
                            out: sealed,
                            pending: Some(
                                AccumModel {
                                    timestamp: Timestamp {
                                        fields: f,
                                        offset_seconds: cfg.offset_seconds,
                                    },
                                    sender: trim(h.sender),
                                    content: trim(h.content),
                                },
                            ),
                        },
                    ),
                    None => Err(h.ts),
                }
            }
        },
    }
}

/// The segmenter state after the first `n` lines; an error carries the
/// offending timestamp text and its 1-based line number.
pub open spec fn spec_run(cfg: SegConfig, lines: Seq<Seq<char>>, n: int) -> Result<
    SegState,
    (Seq<char>, int),
>
    decreases n,
{
    if n <= 0 {
        Ok(SegState { out: Seq::empty(), pending: None })
    } else {
        match spec_run(cfg, lines, n - 1) {
            Err(e) => Err(e),
            Ok(st) => match spec_step(cfg, st, lines[n - 1]) {
                Ok(st2) => Ok(st2),
                Err(ts) => Err((ts, n)),
            },
        }
    }
}

/// The full segmentation of a transcript: run every line, then seal at end
/// of stream.
pub open spec fn spec_segment(cfg: SegConfig, lines: Seq<Seq<char>>) -> Result<
    Seq<MessageModel>,
    (Seq<char>, int),
> {
    match spec_run(cfg, lines, lines.len() as int) {
        Ok(st) => Ok(spec_seal(st)),
        Err(e) => Err(e),
    }
}

/// Line `j` is a header line whose trimmed sender group reads `s`.
pub open spec fn sender_at(lines: Seq<Seq<char>>, j: int, s: Seq<char>) -> bool {
    spec_header(lines[j]) matches Some(h) && trim(h.sender) == s
}

/// `acc` extended by `s` unless `s` is already present.
pub open spec fn push_unique(acc: Seq<Seq<char>>, s: Seq<char>) -> Seq<Seq<char>> {
    if acc.contains(s) {
        acc
    } else {
        acc.push(s)
    }
}

/// The distinct trimmed sender names over the first `n` lines, in order of
/// first appearance: every header-matching line contributes its trimmed
/// sender group, lexically, with no timestamp validation.
pub open spec fn spec_detect_senders(lines: Seq<Seq<char>>, n: int) -> Seq<Seq<char>>
    decreases n,
{
    if n <= 0 {
        Seq::empty()
    } else {
        let prev = spec_detect_senders(lines, n - 1);
        match spec_header(lines[n - 1]) {
            Some(h) => push_unique(prev, trim(h.sender)),
            None => prev,
        }
    }
}

fn sender_content_at(line: &str, len: usize, i: usize) -> (r: Option<(String, String)>)
    requires
        len == line@.len(),
        i <= len,
    ensures
        r matches Some(p) ==> spec_sender_content(line@, i as int) == Some((p.0@, p.1@)),
        r is None ==> spec_sender_content(line@, i as int) is None,
{
    match find_colon_from(line, i) {
        None => None,
        Some(k) => {
            if k > i && len - k > 2 && line.get_char(k + 1) == ' ' {
                let snd = line.substring_char(i, k);
                let cnt = line.substring_char(k + 2, len);
                Some((String::from_str(snd), String::from_str(cnt)))
            } else {
                None
            }
        },
    }
}

fn bracketed_header(line: &str, len: usize) -> (r: Option<Header>)
    requires
        len == line@.len(),
    ensures
        r matches Some(h) ==> spec_header_bracketed(line@) == Some(
            HeaderModel { ts: h.ts_text@, sender: h.sender@, content: h.content@ },
        ),
        r is None ==> spec_header_bracketed(line@) is None,
{
    if !char_at_is(line, len, 0, '[') {
        return None;
    }
    let (_f, j) = match try_lex_at(Grammar::DaySlashSeconds, line, len, 1) {
        Some(x) => x,
        None => return None,
    };
    if !char_at_is(line, len, j, ']') {
        return None;
    }
    if !char_at_is(line, len, j + 1, ' ') {
        return None;
    }
    let (snd, cnt) = match sender_content_at(line, len, j + 2) {
        Some(x) => x,
        None => return None,
    };
    let ts = line.substring_char(1, j);
    Some(Header { ts_text: String::from_str(ts), sender: snd, content: cnt })
}

fn dashed_header(line: &str, len: usize, g: Grammar) -> (r: Option<Header>)
    requires
        len == line@.len(),
    ensures
        r matches Some(h) ==> spec_header_dashed(g, line@) == Some(
            HeaderModel { ts: h.ts_text@, sender: h.sender@, content: h.content@ },
        ),
        r is None ==> spec_header_dashed(g, line@) is None,
{
    let (_f, j) = match try_lex_at(g, line, len, 0) {
        Some(x) => x,
        None => return None,
    };
    if !char_at_is(line, len, j, ' ') {
        return None;
    }
    if !char_at_is(line, len, j + 1, '-') {
        return None;
    }
    if !char_at_is(line, len, j + 2, ' ') {
        return None;
    }
    let (snd, cnt) = match sender_content_at(line, len, j + 3) {
        Some(x) => x,
        None => return None,
    };
    let ts = line.substring_char(0, j);
    Some(Header { ts_text: String::from_str(ts), sender: snd, content: cnt })
}

/// Reads a line as a message header, if it matches one of the header
/// grammars; purely lexical, no calendar validation.
pub fn try_header(line: &str) -> (r: Option<Header>)
    ensures
        r matches Some(h) ==> spec_header(line@) == Some(
            HeaderModel { ts: h.ts_text@, sender: h.sender@, content: h.content@ },
        ),
        r is None ==> spec_header(line@) is None,
{
    let len = line.unicode_len();
    match bracketed_header(line, len) {
        Some(h) => Some(h),
        None => match dashed_header(line, len, Grammar::DaySlashTwelveHour) {
            Some(h) => Some(h),
            None => dashed_header(line, len, Grammar::DaySlashShort),
        },
    }
}

fn is_system_content(content: &str, patterns: &Vec<String>) -> (r: bool)
    ensures
        r == spec_is_system(content@, patterns.deep_view()),
{
    let mut k: usize = 0;
    while k < patterns.len()
        invariant
            0 <= k <= patterns@.len(),
            forall|j: int|
                0 <= j < k ==> !contains_sub(content@, #[trigger] patterns.deep_view()[j]),
        decreases patterns@.len() - k,
    {
        if contains_str(content, patterns[k].as_str()) {
            proof {
                assert(patterns.deep_view()[k as int] == patterns@[k as int]@);
            }
            return true;
        }
        k = k + 1;
    }
    false
}

fn contains_string(v: &Vec<String>, s: &str) -> (r: bool)
    ensures
        r == exists|k: int| 0 <= k < v@.len() && (#[trigger] v@[k])@ == s@,
{
    let mut k: usize = 0;
    while k < v.len()
        invariant
            0 <= k <= v@.len(),
            forall|j: int| 0 <= j < k ==> (#[trigger] v@[j])@ != s@,
        decreases v@.len() - k,
    {
        if str_eq(v[k].as_str(), s) {
            return true;
        }
        k = k + 1;
    }
    false
}

/// The default system-notice patterns, as owned strings.
pub fn default_system_pattern_vec() -> (r: Vec<String>)
    ensures
        r.deep_view() == default_system_patterns(),
{
    let mut v: Vec<String> = Vec::new();
    v.push(String::from_str("Messages and calls are end-to-end encrypted"));
    v.push(String::from_str("created this group"));
    v.push(String::from_str("You created group"));
    v.push(String::from_str("added you"));
    v.push(String::from_str("Security code changed"));
    v.push(String::from_str("This message was deleted"));
    proof {
        assert(v.deep_view() =~= default_system_patterns());
    }
    v
}

/// The ghost reading of the pending slot.
pub open spec fn pending_model(p: Option<Accumulator>) -> Option<AccumModel> {
    match p {
        None => None,
        Some(a) => Some(a@),
    }
}

/// 1 when a message is pending, else 0.
pub open spec fn pending_count(p: Option<Accumulator>) -> int {
    if p is Some {
        1
    } else {
        0
    }
}

/// An error in a run's prefix decides the whole run.
pub proof fn lemma_run_err_persists(
    cfg: SegConfig,
    lines: Seq<Seq<char>>,
    k: int,
    n: int,
    e: (Seq<char>, int),
)
    requires
        0 <= k <= n,
        spec_run(cfg, lines, k) == Err::<SegState, (Seq<char>, int)>(e),
    ensures
        spec_run(cfg, lines, n) == Err::<SegState, (Seq<char>, int)>(e),
    decreases n - k,
{
    if n > k {
        lemma_run_err_persists(cfg, lines, k, n - 1, e);
    }
}

/// The transcript parser: the normalizer it consults for each header
/// line's timestamp, the system-notice patterns it filters by, and the
/// identity of the transcript's owner, accepted for downstream use but not
/// consumed by the parsing core.
pub struct ChatParser {
    pub normalizer: Normalizer,
    pub system_patterns: Vec<String>,
    pub user_identity: Option<String>,
}

impl ChatParser {
    /// The ghost configuration this parser runs under.
    pub open spec fn config(&self) -> SegConfig {
        SegConfig {
            grammars: self.normalizer.grammars@,
            offset_seconds: self.normalizer.offset_seconds,
            patterns: self.system_patterns.deep_view(),
        }
    }

    /// Well-formedness: the normalizer's offset is in range.
    pub open spec fn wf(&self) -> bool {
        self.normalizer.wf()
    }

    /// A parser with the default grammars, the default system-notice
    /// patterns, the process's local UTC offset and no owner identity.
    pub fn new() -> (r: ChatParser)
        ensures
            r.config().grammars == default_grammars(),
            r.config().patterns == default_system_patterns(),
            r.user_identity is None,
            r.wf(),
    {
        ChatParser {
            normalizer: Normalizer::new(),
            system_patterns: default_system_pattern_vec(),
            user_identity: None,
        }
    }

    /// A parser assembled from explicit configuration.
    pub fn with_config(
        normalizer: Normalizer,
        system_patterns: Vec<String>,
        user_identity: Option<String>,
    ) -> (r: ChatParser)
        ensures
            r.normalizer == normalizer,
            r.system_patterns == system_patterns,
            r.user_identity == user_identity,
    {
        ChatParser { normalizer, system_patterns, user_identity }
    }

    /// Segments a whole transcript, the host having split it into lines,
    /// and returns the completed messages in transcript order — exactly
    /// the sealing of the line-by-line run — or the first invalid
    /// timestamp with its 1-based line number. All-or-nothing: no partial
    /// output accompanies an error.
    #[verifier::rlimit(100)]
    pub fn parse_chat(&self, lines: &Vec<String>) -> (r: Result<Vec<Message>, ParseError>)
        ensures
            match spec_segment(self.config(), lines.deep_view()) {
                Ok(ms) => r matches Ok(v) && v@.map_values(|m: Message| m@) == ms,
                Err(e) => r matches Err(ParseError::InvalidTimestamp { text, line }) && text@
                    == e.0 && line as int == e.1,
            },
    {
        let ghost cfg = self.config();
        let ghost lv = lines.deep_view();
        let mut out: Vec<Message> = Vec::new();
        let mut pending: Option<Accumulator> = None;
        let mut i: usize = 0;
        proof {
            assert(out@.map_values(|m: Message| m@) =~= Seq::<MessageModel>::empty());
        }
        while i < lines.len()
            invariant
                cfg == self.config(),
                lv == lines.deep_view(),
                lv.len() == lines@.len(),
                0 <= i <= lines@.len(),
                spec_run(cfg, lv, i as int) == Ok::<SegState, (Seq<char>, int)>(
                    SegState {
                        out: out@.map_values(|m: Message| m@),
                        pending: pending_model(pending),
                    },
                ),
                out@.len() + pending_count(pending) <= i,
            decreases lines@.len() - i,
        {
            let ghost st = SegState {
                out: out@.map_values(|m: Message| m@),
                pending: pending_model(pending),
            };
            let line: &String = &lines[i];
            proof {
                assert(lv[i as int] == lines@[i as int]@);
            }
            match try_header(line.as_str()) {
                None => {
                    pending = match pending {
                        None => None,
                        Some(a) => {
                            let mut a2 = a;
                            a2.content.append("\n");
                            a2.content.append(line.as_str());
                            Some(a2)
                        },
                    };
                    proof {
                        reveal_strlit("\n");
                        assert("\n"@ =~= seq!['\n']);
                        if st.pending is Some {
                            assert(pending_model(pending)->0.content =~= st.pending->0.content
                                + seq!['\n'] + lv[i as int]);
                        }
                        assert(spec_step(cfg, st, lv[i as int]) == Ok::<SegState, Seq<char>>(
                            SegState {
                                out: st.out,
                                pending: pending_model(pending),
                            },
                        ));
                    }
                },
                Some(h) => {
                    let taken = pending;
                    pending = None;
                    match taken {
                        None => {},
                        Some(a) => {
                            let mtype = detect_message_type(a.content.as_str());
                            let id_val: u64 = out.len() as u64 + 1;
                            out.push(
                                Message {
                                    id: id_val,
                                    timestamp: a.timestamp,
                                    sender: a.sender,
                                    content: a.content,
                                    message_type: mtype,
                                },
                            );
                        },
                    }
                    proof {
                        assert(out@.map_values(|m: Message| m@) =~= spec_seal(st));
                    }
                    if is_system_content(h.content.as_str(), &self.system_patterns) {
                    } else {
                        match self.normalizer.normalize(h.ts_text.as_str()) {
                            Ok(t) => {
                                let snd = trim_str(h.sender.as_str());
                                let cnt = trim_str(h.content.as_str());
                                pending = Some(
                                    Accumulator { timestamp: t, sender: snd, content: cnt },
                                );
                            },
                            Err(_e) => {
                                proof {
                                    let ghost hm = HeaderModel {
                                        ts: h.ts_text@,
                                        sender: h.sender@,
                                        content: h.content@,
                                    };
                                    assert(spec_step(cfg, st, lv[i as int]) == Err::<
                                        SegState,
                                        Seq<char>,
                                    >(hm.ts));
                                    assert(spec_run(cfg, lv, i + 1) == Err::<
                                        SegState,
                                        (Seq<char>, int),
                                    >((hm.ts, i + 1)));
                                    lemma_run_err_persists(
                                        cfg,
                                        lv,
                                        i + 1,
                                        lv.len() as int,
                                        (hm.ts, i + 1),
                                    );
                                }
                                return Err(
                                    ParseError::InvalidTimestamp { text: h.ts_text, line: i + 1 },
                                );
                            },
                        }
                    }
                },
            }
            i = i + 1;
        }
        match pending {
            None => {},
            Some(a) => {
                let mtype = detect_message_type(a.content.as_str());
                let id_val: u64 = out.len() as u64 + 1;
                out.push(
                    Message {
                        id: id_val,
                        timestamp: a.timestamp,
                        sender: a.sender,
                        content: a.content,
                        message_type: mtype,
                    },
                );
            },
        }
        proof {
            assert(out@.map_values(|m: Message| m@) =~= spec_segment(cfg, lv)->Ok_0);
        }
        Ok(out)
    }

    /// Collects the distinct trimmed sender names over all header-matching
    /// lines, in first-appearance order, regardless of timestamp validity;
    /// no timestamp validation and no message sealing take place.
    #[verifier::rlimit(100)]
    pub fn detect_senders(&self, lines: &Vec<String>) -> (r: Vec<String>)
        ensures
            r.deep_view() == spec_detect_senders(lines.deep_view(), lines.deep_view().len() as int),
    {
        let ghost lv = lines.deep_view();
        let mut out: Vec<String> = Vec::new();
        let mut i: usize = 0;
        proof {
            assert(out.deep_view() =~= spec_detect_senders(lv, 0));
        }
        while i < lines.len()
            invariant
                lv == lines.deep_view(),
                lv.len() == lines@.len(),
                0 <= i <= lines@.len(),
                out.deep_view() == spec_detect_senders(lv, i as int),
            decreases lines@.len() - i,
        {
            let ghost out0 = out.deep_view();
            let line: &String = &lines[i];
            proof {
                assert(lv[i as int] == lines@[i as int]@);
            }
            match try_header(line.as_str()) {
                Some(h) => {
                    let ghost hm = HeaderModel {
                        ts: h.ts_text@,
                        sender: h.sender@,
                        content: h.content@,
                    };
                    let snd = trim_str(h.sender.as_str());
                    let present = contains_string(&out, snd.as_str());
                    proof {
                        assert(spec_header(lv[i as int]) == Some(hm));
                        if present {
                            let k0 = choose|k: int|
                                0 <= k < out@.len() && (#[trigger] out@[k])@ == snd@;
                            assert(out0[k0] == snd@);
                            assert(out0.contains(trim(hm.sender)));
                        } else {
                            assert forall|k: int|
                                0 <= k < out0.len() implies #[trigger] out0[k] != snd@ by {
                                assert((out@[k])@ != snd@);
                            }
                            assert(!out0.contains(trim(hm.sender)));
                        }
                    }
                    if !present {
                        out.push(snd);
                        proof {
                            assert(out.deep_view() =~= out0.push(trim(hm.sender)));
                        }
                    }
                    proof {
                        assert(out.deep_view() == spec_detect_senders(lv, i + 1));
                    }
                },
                None => {
                    proof {
                        assert(spec_header(lv[i as int]) is None);
                        assert(out.deep_view() == spec_detect_senders(lv, i + 1));
                    }
                },
            }
            i = i + 1;
        }
        out
    }
}

} // verus!
