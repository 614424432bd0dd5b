//! Library-wide laws, stated and proved over the segmenter's and
//! normalizer's mathematical models.

use vstd::prelude::*;

use crate::classify::spec_classify;
use crate::segment::{
    AccumModel, SegConfig, SegState, sender_at, spec_detect_senders, spec_header, spec_is_system,
    spec_run, spec_seal, spec_segment, spec_step,
};
use crate::text::{digit_val, is_digit, trim};
use crate::timestamp::{
    Grammar, TimeFields, default_grammars, fields_valid, hour_to_24, lex_at, lex_date_hm,
    lex_day_slash_seconds, lex_day_slash_twelve_hour, lex_full, lex_iso_seconds, lex_meridiem,
    num2, num4, scan2, scan12, scan_year, spec_normalize,
};

verus! {

/// The number of header lines among the first `n` whose content is not a
/// system notice: the lines that start a message.
pub open spec fn count_starts(cfg: SegConfig, lines: Seq<Seq<char>>, n: int) -> int
    decreases n,
{
    if n <= 0 {
        0
    } else {
        count_starts(cfg, lines, n - 1) + (match spec_header(lines[n - 1]) {
            Some(h) => if !spec_is_system(h.content, cfg.patterns) {
                1int
            } else {
                0int
            },
            None => 0int,
        })
    }
}

/// Invariants of every successful run prefix: sealed ids are consecutive
/// from 1 in emission order, every sealed message carries exactly the
/// classification of its own content, and the sealed messages together
/// with the pending accumulator count the non-system header lines seen.
pub proof fn lemma_run_invariants(cfg: SegConfig, lines: Seq<Seq<char>>, n: int)
    requires
        0 <= n,
        spec_run(cfg, lines, n) is Ok,
    ensures
        ({
            let st = spec_run(cfg, lines, n)->Ok_0;
            &&& forall|j: int|
                0 <= j < st.out.len() ==> (#[trigger] st.out[j]).id == ((j + 1) as u64)
            &&& forall|j: int|
                0 <= j < st.out.len() ==> (#[trigger] st.out[j]).message_type == spec_classify(
                    st.out[j].content,
                )
            &&& st.out.len() + (if st.pending is Some {
                1int
            } else {
                0int
            }) == count_starts(cfg, lines, n)
        }),
    decreases n,
{
    if n > 0 {
        lemma_run_invariants(cfg, lines, n - 1);
        let st0 = spec_run(cfg, lines, n - 1)->Ok_0;
        let st = spec_run(cfg, lines, n)->Ok_0;
        assert(spec_step(cfg, st0, lines[n - 1]) == Ok::<SegState, Seq<char>>(st));
        let sealed = spec_seal(st0);
        assert(forall|j: int|
            0 <= j < sealed.len() ==> (#[trigger] sealed[j]).id == ((j + 1) as u64));
        assert(forall|j: int|
            0 <= j < sealed.len() ==> (#[trigger] sealed[j]).message_type == spec_classify(
                sealed[j].content,
            ));
    }
}

/// Sealed message ids form the strictly increasing, gap-free sequence
/// 1, 2, 3, ... in emission order, and their total equals the number of
/// non-system header lines of the transcript.
pub proof fn lemma_ids_gap_free(cfg: SegConfig, lines: Seq<Seq<char>>)
    requires
        spec_segment(cfg, lines) is Ok,
    ensures
        ({
            let ms = spec_segment(cfg, lines)->Ok_0;
            &&& forall|j: int| 0 <= j < ms.len() ==> (#[trigger] ms[j]).id == ((j + 1) as u64)
            &&& ms.len() == count_starts(cfg, lines, lines.len() as int)
        }),
{
    lemma_run_invariants(cfg, lines, lines.len() as int);
}

/// Classification is idempotent on emitted messages: re-running
/// message-type classification on an emitted message's content yields the
/// tag the message already carries.
pub proof fn lemma_classification_stable(cfg: SegConfig, lines: Seq<Seq<char>>, j: int)
    requires
        spec_segment(cfg, lines) is Ok,
        0 <= j < spec_segment(cfg, lines)->Ok_0.len(),
    ensures
        ({
            let ms = spec_segment(cfg, lines)->Ok_0;
            ms[j].message_type == spec_classify(ms[j].content)
        }),
{
    lemma_run_invariants(cfg, lines, lines.len() as int);
}

/// `head` followed by each line of `conts` in order, joined by exactly one
/// newline each.
pub open spec fn join_lines(head: Seq<char>, conts: Seq<Seq<char>>) -> Seq<char>
    decreases conts.len(),
{
    if conts.len() == 0 {
        head
    } else {
        join_lines(head + seq!['\n'] + conts[0], conts.drop_first())
    }
}

/// Continuation accumulation preserves line order: running the segmenter
/// across `m` non-header lines leaves the emitted messages untouched and
/// extends the pending content by exactly those lines, in original order,
/// each joined by one newline and otherwise unaltered.
pub proof fn lemma_continuations_in_order(
    cfg: SegConfig,
    lines: Seq<Seq<char>>,
    n: int,
    m: int,
    st: SegState,
    a: AccumModel,
)
    requires
        0 <= n,
        0 <= m,
        n + m <= lines.len(),
        spec_run(cfg, lines, n) == Ok::<SegState, (Seq<char>, int)>(st),
        st.pending == Some(a),
        forall|k: int| n <= k < n + m ==> spec_header(#[trigger] lines[k]) is None,
    ensures
        spec_run(cfg, lines, n + m) == Ok::<SegState, (Seq<char>, int)>(
            SegState {
                out: st.out,
                pending: Some(
                    AccumModel {
                        timestamp: a.timestamp,
                        sender: a.sender,
                        content: join_lines(a.content, lines.subrange(n, n + m)),
                    },
                ),
            },
        ),
    decreases m,
{
    if m == 0 {
        assert(lines.subrange(n, n) =~= Seq::<Seq<char>>::empty());
        assert(SegState {
            out: st.out,
            pending: Some(
                AccumModel { timestamp: a.timestamp, sender: a.sender, content: a.content },
            ),
        } == st);
    } else {
        let a1 = AccumModel {
            timestamp: a.timestamp,
            sender: a.sender,
            content: a.content + seq!['\n'] + lines[n],
        };
        let st1 = SegState { out: st.out, pending: Some(a1) };
        assert(spec_step(cfg, st, lines[n]) == Ok::<SegState, Seq<char>>(st1));
        assert(spec_run(cfg, lines, n + 1) == Ok::<SegState, (Seq<char>, int)>(st1));
        lemma_continuations_in_order(cfg, lines, n + 1, m - 1, st1, a1);
        assert(lines.subrange(n + 1, n + m) =~= lines.subrange(n, n + m).drop_first());
        assert(lines.subrange(n, n + m)[0] == lines[n]);
    }
}

/// A message body assembles as the header's trailing text, trimmed,
/// followed by the continuation lines in original order, each joined by
/// exactly one newline and not altered: the state after a non-system,
/// validly timestamped header line at `n` and `m` continuation lines holds
/// a pending accumulator with exactly that sender and content.
pub proof fn lemma_accumulation(
    cfg: SegConfig,
    lines: Seq<Seq<char>>,
    n: int,
    m: int,
    st: SegState,
    h: crate::segment::HeaderModel,
)
    requires
        0 <= n,
        0 <= m,
        n + 1 + m <= lines.len(),
        spec_run(cfg, lines, n) == Ok::<SegState, (Seq<char>, int)>(st),
        spec_header(lines[n]) == Some(h),
        !spec_is_system(h.content, cfg.patterns),
        spec_normalize(cfg.grammars, h.ts) is Some,
        forall|k: int| n + 1 <= k < n + 1 + m ==> spec_header(#[trigger] lines[k]) is None,
    ensures
        spec_run(cfg, lines, n + 1 + m) matches Ok(st2) && (st2.out == spec_seal(st) && (
        st2.pending matches Some(a) && (a.sender == trim(h.sender) && a.content == join_lines(
            trim(h.content),
            lines.subrange(n + 1, n + 1 + m),
        )))),
{
    let f = spec_normalize(cfg.grammars, h.ts)->0;
    let a1 = AccumModel {
        timestamp: crate::timestamp::Timestamp { fields: f, offset_seconds: cfg.offset_seconds },
        sender: trim(h.sender),
        content: trim(h.content),
    };
    let st1 = SegState { out: spec_seal(st), pending: Some(a1) };
    assert(spec_step(cfg, st, lines[n]) == Ok::<SegState, Seq<char>>(st1));
    assert(spec_run(cfg, lines, n + 1) == Ok::<SegState, (Seq<char>, int)>(st1));
    lemma_continuations_in_order(cfg, lines, n + 1, m, st1, a1);
}

/// Some line among the first `n` is a header line whose trimmed sender
/// group reads `s`.
pub open spec fn sends_before(lines: Seq<Seq<char>>, n: int, s: Seq<char>) -> bool {
    exists|j: int| 0 <= j < n && #[trigger] sender_at(lines, j, s)
}

/// Sender discovery is exact: the discovered names are pairwise distinct;
/// each one is the trimmed sender group of some header-matching line; and
/// the trimmed sender group of every header-matching line is among them —
/// all independent of timestamp validity, which discovery never checks.
pub proof fn lemma_detect_senders_exact(lines: Seq<Seq<char>>, n: int)
    requires
        0 <= n <= lines.len(),
    ensures
        ({
            let d = spec_detect_senders(lines, n);
            &&& forall|x: int, y: int| 0 <= x < y < d.len() ==> d[x] != d[y]
            &&& forall|k: int| 0 <= k < d.len() ==> sends_before(lines, n, #[trigger] d[k])
            &&& forall|j: int, s: Seq<char>|
                0 <= j < n && #[trigger] sender_at(lines, j, s) ==> d.contains(s)
        }),
    decreases n,
{
    if n > 0 {
        lemma_detect_senders_exact(lines, n - 1);
        let prev = spec_detect_senders(lines, n - 1);
        let d = spec_detect_senders(lines, n);
        match spec_header(lines[n - 1]) {
            Some(h) => {
                let sv = trim(h.sender);
                assert(sender_at(lines, n - 1, sv));
                if prev.contains(sv) {
                    assert(d == prev);
                    assert forall|k: int| 0 <= k < d.len() implies sends_before(
                        lines,
                        n,
                        #[trigger] d[k],
                    ) by {
                        let j0 = choose|j: int|
                            0 <= j < n - 1 && #[trigger] sender_at(lines, j, prev[k]);
                        assert(sender_at(lines, j0, d[k]));
                    }
                    assert forall|j: int, s: Seq<char>|
                        0 <= j < n && #[trigger] sender_at(lines, j, s) implies d.contains(s) by {
                        if j == n - 1 {
                            assert(s == sv);
                        } else {
                            assert(prev.contains(s));
                        }
                    }
                } else {
                    assert(d == prev.push(sv));
                    assert(d[d.len() - 1] == sv);
                    assert(forall|x: int| 0 <= x < prev.len() ==> #[trigger] d[x] == prev[x]);
                    assert forall|k: int| 0 <= k < d.len() implies sends_before(
                        lines,
                        n,
                        #[trigger] d[k],
                    ) by {
                        if k < prev.len() {
                            assert(sends_before(lines, n - 1, prev[k]));
                            let j0 = choose|j: int|
                                0 <= j < n - 1 && #[trigger] sender_at(lines, j, prev[k]);
                            assert(d[k] == prev[k]);
                            assert(sender_at(lines, j0, d[k]));
                        } else {
                            assert(d[k] == sv);
                            assert(sender_at(lines, n - 1, d[k]));
                        }
                    }
                    assert forall|x: int, y: int| 0 <= x < y < d.len() implies d[x] != d[y] by {
                        if y == d.len() - 1 {
                            assert(d[x] == prev[x]);
                            if prev[x] == sv {
                                assert(prev.contains(sv));
                            }
                        }
                    }
                    assert forall|j: int, s: Seq<char>|
                        0 <= j < n && #[trigger] sender_at(lines, j, s) implies d.contains(s) by {
                        if j < n - 1 {
                            assert(prev.contains(s));
                            let k0 = choose|k: int| 0 <= k < prev.len() && prev[k] == s;
                            assert(d[k0] == s);
                        } else {
                            assert(s == sv);
                            assert(d[d.len() - 1] == s);
                        }
                    }
                }
            },
            None => {
                assert(d == prev);
                assert forall|k: int| 0 <= k < d.len() implies sends_before(
                    lines,
                    n,
                    #[trigger] d[k],
                ) by {
                    assert(sends_before(lines, n - 1, prev[k]));
                    let j0 = choose|j: int|
                        0 <= j < n - 1 && #[trigger] sender_at(lines, j, prev[k]);
                    assert(sender_at(lines, j0, d[k]));
                }
                assert forall|j: int, s: Seq<char>|
                    0 <= j < n && #[trigger] sender_at(lines, j, s) implies d.contains(s) by {
                    assert(j != n - 1);
                }
            },
        }
    }
}

/// The ASCII digit character of a value between 0 and 9.
pub open spec fn digit_char(v: int) -> char {
    if v == 0 {
        '0'
    } else if v == 1 {
        '1'
    } else if v == 2 {
        '2'
    } else if v == 3 {
        '3'
    } else if v == 4 {
        '4'
    } else if v == 5 {
        '5'
    } else if v == 6 {
        '6'
    } else if v == 7 {
        '7'
    } else if v == 8 {
        '8'
    } else {
        '9'
    }
}

proof fn lemma_digit_char(v: int)
    requires
        0 <= v <= 9,
    ensures
        is_digit(digit_char(v)),
        digit_val(digit_char(v)) == v,
        digit_char(v) != '/',
        digit_char(v) != '-',
        digit_char(v) != ':',
        digit_char(v) != ',',
        digit_char(v) != ' ',
{
}

/// The canonical two-digit rendering of the components of `f` under the
/// day-first seconds grammar: `DD/MM/YYYY, HH:MM:SS`.
pub open spec fn render_day_slash_seconds(f: TimeFields) -> Seq<char> {
    seq![
        digit_char(f.day as int / 10),
        digit_char(f.day as int % 10),
        '/',
        digit_char(f.month as int / 10),
        digit_char(f.month as int % 10),
        '/',
        digit_char(f.year as int / 100 / 10),
        digit_char(f.year as int / 100 % 10),
        digit_char(f.year as int % 100 / 10),
        digit_char(f.year as int % 100 % 10),
        ',',
        ' ',
        digit_char(f.hour as int / 10),
        digit_char(f.hour as int % 10),
        ':',
        digit_char(f.minute as int / 10),
        digit_char(f.minute as int % 10),
        ':',
        digit_char(f.second as int / 10),
        digit_char(f.second as int % 10),
    ]
}

/// Round trip under the day-first seconds grammar: normalizing the
/// canonical rendering of calendar-legal components recovers exactly those
/// components — the first grammar of the default order claims the match.
#[verifier::rlimit(100)]
pub proof fn lemma_round_trip_day_seconds(f: TimeFields)
    requires
        fields_valid(f),
        f.year < 10000,
    ensures
        spec_normalize(default_grammars(), render_day_slash_seconds(f)) == Some(f),
{
    reveal(lex_day_slash_seconds);
    let s = render_day_slash_seconds(f);
    lemma_digit_char(f.day as int / 10);
    lemma_digit_char(f.day as int % 10);
    lemma_digit_char(f.month as int / 10);
    lemma_digit_char(f.month as int % 10);
    lemma_digit_char(f.year as int / 100 / 10);
    lemma_digit_char(f.year as int / 100 % 10);
    lemma_digit_char(f.year as int % 100 / 10);
    lemma_digit_char(f.year as int % 100 % 10);
    lemma_digit_char(f.hour as int / 10);
    lemma_digit_char(f.hour as int % 10);
    lemma_digit_char(f.minute as int / 10);
    lemma_digit_char(f.minute as int % 10);
    lemma_digit_char(f.second as int / 10);
    lemma_digit_char(f.second as int % 10);
    assert(s.len() == 20);
    assert(num2(s, 0) == f.day as int);
    assert(num2(s, 3) == f.month as int);
    assert(num2(s, 6) == f.year as int / 100);
    assert(num2(s, 8) == f.year as int % 100);
    assert(num4(s, 6) == f.year as int);
    assert(num2(s, 12) == f.hour as int);
    assert(num2(s, 15) == f.minute as int);
    assert(num2(s, 18) == f.second as int);
    assert(lex_day_slash_seconds(s, 0) == Some((f, 20int)));
    assert(lex_full(Grammar::DaySlashSeconds, s) == Some(f));
    assert(default_grammars()[0] == Grammar::DaySlashSeconds);
    assert(spec_normalize(default_grammars(), s) == Some(f));
}

/// The twelve-hour clock value of a twenty-four-hour clock hour.
pub open spec fn hour_on_12(h: int) -> int {
    if h == 0 {
        12
    } else if h > 12 {
        h - 12
    } else {
        h
    }
}

/// The canonical rendering of `f` under the twelve-hour grammar with
/// seconds: `DD/MM/YYYY, HH:MM:SS AM|PM`.
pub open spec fn render_day_slash_twelve_hour(f: TimeFields) -> Seq<char> {
    seq![
        digit_char(f.day as int / 10),
        digit_char(f.day as int % 10),
        '/',
        digit_char(f.month as int / 10),
        digit_char(f.month as int % 10),
        '/',
        digit_char(f.year as int / 100 / 10),
        digit_char(f.year as int / 100 % 10),
        digit_char(f.year as int % 100 / 10),
        digit_char(f.year as int % 100 % 10),
        ',',
        ' ',
        digit_char(hour_on_12(f.hour as int) / 10),
        digit_char(hour_on_12(f.hour as int) % 10),
        ':',
        digit_char(f.minute as int / 10),
        digit_char(f.minute as int % 10),
        ':',
        digit_char(f.second as int / 10),
        digit_char(f.second as int % 10),
        ' ',
        if f.hour >= 12 {
            'P'
        } else {
            'A'
        },
        'M',
    ]
}

/// The canonical rendering of `f` under the twenty-four-hour grammar
/// without seconds: `DD/MM/YYYY, HH:MM`.
pub open spec fn render_day_slash_short(f: TimeFields) -> Seq<char> {
    seq![
        digit_char(f.day as int / 10),
        digit_char(f.day as int % 10),
        '/',
        digit_char(f.month as int / 10),
        digit_char(f.month as int % 10),
        '/',
        digit_char(f.year as int / 100 / 10),
        digit_char(f.year as int / 100 % 10),
        digit_char(f.year as int % 100 / 10),
        digit_char(f.year as int % 100 % 10),
        ',',
        ' ',
        digit_char(f.hour as int / 10),
        digit_char(f.hour as int % 10),
        ':',
        digit_char(f.minute as int / 10),
        digit_char(f.minute as int % 10),
    ]
}

/// The canonical rendering of `f` under the ISO-like grammar:
/// `YYYY-MM-DD HH:MM:SS`.
pub open spec fn render_iso_seconds(f: TimeFields) -> Seq<char> {
    seq![
        digit_char(f.year as int / 100 / 10),
        digit_char(f.year as int / 100 % 10),
        digit_char(f.year as int % 100 / 10),
        digit_char(f.year as int % 100 % 10),
        '-',
        digit_char(f.month as int / 10),
        digit_char(f.month as int % 10),
        '-',
        digit_char(f.day as int / 10),
        digit_char(f.day as int % 10),
        ' ',
        digit_char(f.hour as int / 10),
        digit_char(f.hour as int % 10),
        ':',
        digit_char(f.minute as int / 10),
        digit_char(f.minute as int % 10),
        ':',
        digit_char(f.second as int / 10),
        digit_char(f.second as int % 10),
    ]
}

proof fn lemma_component_digits(f: TimeFields)
    requires
        fields_valid(f),
        f.year < 10000,
    ensures
        digit_val(digit_char(f.day as int / 10)) == f.day as int / 10,
{
    lemma_digit_char(f.day as int / 10);
    lemma_digit_char(f.day as int % 10);
    lemma_digit_char(f.month as int / 10);
    lemma_digit_char(f.month as int % 10);
    lemma_digit_char(f.year as int / 100 / 10);
    lemma_digit_char(f.year as int / 100 % 10);
    lemma_digit_char(f.year as int % 100 / 10);
    lemma_digit_char(f.year as int % 100 % 10);
    lemma_digit_char(f.hour as int / 10);
    lemma_digit_char(f.hour as int % 10);
    lemma_digit_char(hour_on_12(f.hour as int) / 10);
    lemma_digit_char(hour_on_12(f.hour as int) % 10);
    lemma_digit_char(f.minute as int / 10);
    lemma_digit_char(f.minute as int % 10);
    lemma_digit_char(f.second as int / 10);
    lemma_digit_char(f.second as int % 10);
}

/// Round trip under the twelve-hour grammar: normalizing the canonical
/// twelve-hour rendering of calendar-legal components recovers exactly
/// those components, the meridiem mapping included; the seconds-bearing
/// grammar ahead of it in the default order cannot claim the whole text.
#[verifier::rlimit(100)]
pub proof fn lemma_round_trip_twelve_hour(f: TimeFields)
    requires
        fields_valid(f),
        f.year < 10000,
    ensures
        spec_normalize(default_grammars(), render_day_slash_twelve_hour(f)) == Some(f),
{
    let s = render_day_slash_twelve_hour(f);
    assert(s.len() == 23);
    assert(lex_full(Grammar::DaySlashSeconds, s) is None) by {
        reveal(lex_day_slash_seconds);
        lemma_component_digits(f);
        assert(num2(s, 0) == f.day as int);
        assert(num2(s, 3) == f.month as int);
        assert(num2(s, 12) == hour_on_12(f.hour as int));
        assert(num2(s, 15) == f.minute as int);
        assert(num2(s, 18) == f.second as int);
    }
    assert(lex_full(Grammar::DaySlashTwelveHour, s) == Some(f)) by {
        reveal(lex_date_hm);
        reveal(lex_meridiem);
        reveal(lex_day_slash_twelve_hour);
        lemma_component_digits(f);
        assert(num2(s, 0) == f.day as int);
        assert(num2(s, 3) == f.month as int);
        assert(num4(s, 6) == f.year as int);
        assert(scan_year(s, 6) == Some((f.year as int, 10int)));
        assert(num2(s, 12) == hour_on_12(f.hour as int));
        assert(num2(s, 15) == f.minute as int);
        assert(num2(s, 18) == f.second as int);
        let pm = f.hour >= 12;
        assert(hour_to_24(hour_on_12(f.hour as int), pm) == f.hour as int);
        assert(lex_day_slash_twelve_hour(s, 0) == Some((f, 23int)));
    }
    let gs = default_grammars();
    let gs1 = gs.drop_first();
    assert(gs1 =~= seq![
        Grammar::DaySlashTwelveHour,
        Grammar::DaySlashShort,
        Grammar::IsoSeconds,
    ]);
    assert(spec_normalize(gs1, s) == Some(f));
    assert(spec_normalize(gs, s) == Some(f));
}

/// Round trip under the twenty-four-hour grammar without seconds: the
/// normalized components carry zero seconds, and neither grammar ahead of
/// it in the default order can claim the text.
#[verifier::rlimit(100)]
pub proof fn lemma_round_trip_short(f: TimeFields)
    requires
        fields_valid(f),
        f.year < 10000,
        f.second == 0,
    ensures
        spec_normalize(default_grammars(), render_day_slash_short(f)) == Some(f),
{
    reveal(lex_day_slash_seconds);
    reveal(lex_date_hm);
    reveal(lex_meridiem);
    reveal(lex_day_slash_twelve_hour);
    let s = render_day_slash_short(f);
    lemma_component_digits(f);
    assert(s.len() == 17);
    assert(num2(s, 0) == f.day as int);
    assert(num2(s, 3) == f.month as int);
    assert(num4(s, 6) == f.year as int);
    assert(num2(s, 12) == f.hour as int);
    assert(num2(s, 15) == f.minute as int);
    assert(lex_full(Grammar::DaySlashSeconds, s) is None);
    assert(scan_year(s, 6) == Some((f.year as int, 10int)));
    assert(lex_date_hm(s, 0) == Some((f, 17int)));
    assert(lex_full(Grammar::DaySlashTwelveHour, s) is None);
    assert(lex_full(Grammar::DaySlashShort, s) == Some(f));
    let gs = default_grammars();
    let gs1 = gs.drop_first();
    assert(gs1 =~= seq![
        Grammar::DaySlashTwelveHour,
        Grammar::DaySlashShort,
        Grammar::IsoSeconds,
    ]);
    let gs2 = gs1.drop_first();
    assert(gs2 =~= seq![Grammar::DaySlashShort, Grammar::IsoSeconds]);
    assert(spec_normalize(gs2, s) == Some(f));
    assert(spec_normalize(gs1, s) == Some(f));
    assert(spec_normalize(gs, s) == Some(f));
}

/// Round trip under the ISO-like grammar: the dashed date defeats the three
/// slash-date grammars ahead of it in the default order, and normalization
/// recovers exactly the rendered components.
#[verifier::rlimit(100)]
pub proof fn lemma_round_trip_iso(f: TimeFields)
    requires
        fields_valid(f),
        f.year < 10000,
    ensures
        spec_normalize(default_grammars(), render_iso_seconds(f)) == Some(f),
{
    let s = render_iso_seconds(f);
    assert(s.len() == 19);
    assert(lex_full(Grammar::DaySlashSeconds, s) is None) by {
        reveal(lex_day_slash_seconds);
        lemma_component_digits(f);
    }
    assert(lex_date_hm(s, 0) is None) by {
        reveal(lex_date_hm);
        lemma_component_digits(f);
    }
    assert(lex_full(Grammar::DaySlashTwelveHour, s) is None) by {
        reveal(lex_day_slash_twelve_hour);
        assert(lex_date_hm(s, 0) is None);
    }
    assert(lex_full(Grammar::DaySlashShort, s) is None);
    assert(lex_full(Grammar::IsoSeconds, s) == Some(f)) by {
        reveal(lex_iso_seconds);
        lemma_component_digits(f);
        assert(num2(s, 0) == f.year as int / 100);
        assert(num2(s, 2) == f.year as int % 100);
        assert(num4(s, 0) == f.year as int);
        assert(num2(s, 5) == f.month as int);
        assert(num2(s, 8) == f.day as int);
        assert(num2(s, 11) == f.hour as int);
        assert(num2(s, 14) == f.minute as int);
        assert(num2(s, 17) == f.second as int);
        assert(lex_iso_seconds(s, 0) == Some((f, 19int)));
    }
    let gs = default_grammars();
    let gs1 = gs.drop_first();
    assert(gs1 =~= seq![
        Grammar::DaySlashTwelveHour,
        Grammar::DaySlashShort,
        Grammar::IsoSeconds,
    ]);
    let gs2 = gs1.drop_first();
    assert(gs2 =~= seq![Grammar::DaySlashShort, Grammar::IsoSeconds]);
    let gs3 = gs2.drop_first();
    assert(gs3 =~= seq![Grammar::IsoSeconds]);
    assert(spec_normalize(gs3, s) == Some(f));
    assert(spec_normalize(gs2, s) == Some(f));
    assert(spec_normalize(gs1, s) == Some(f));
    assert(spec_normalize(gs, s) == Some(f));
}

} // verus!
