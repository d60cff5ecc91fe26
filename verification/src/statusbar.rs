use vstd::prelude::*;

use std::fmt::Write;

use crate::text::{push_char, push_str};

verus! {

/// The segment that stands for the working directory.
pub open spec fn pwd_token() -> Seq<char> {
    seq!['%', 'p', 'w', 'd']
}

/// A segment `%date{FORMAT}`: the current date in a strftime format.
pub open spec fn is_date_token(s: Seq<char>) -> bool {
    &&& s.len() >= 7
    &&& s.take(6) == seq!['%', 'd', 'a', 't', 'e', '{']
    &&& s.last() == '}'
}

/// The strftime format inside a date segment.
pub open spec fn date_format(s: Seq<char>) -> Seq<char> {
    s.subrange(6, s.len() - 1)
}

/// What a segment shows: the working directory for `%pwd` (nothing when
/// it is unknown), the formatted date for a date segment (nothing when it
/// could not be formatted), the segment itself otherwise.
pub open spec fn segment_text(seg: Seq<char>, cwd: Option<Seq<char>>, date: Option<Seq<char>>) -> Option<
    Seq<char>,
> {
    if seg == pwd_token() {
        cwd
    } else if is_date_token(seg) {
        date
    } else {
        Some(seg)
    }
}

/// The texts that the first `n` segments show, in order.
pub open spec fn shown_parts(
    segs: Seq<Seq<char>>,
    cwd: Option<Seq<char>>,
    dates: Seq<Option<Seq<char>>>,
    n: nat,
) -> Seq<Seq<char>>
    decreases n,
{
    if n == 0 {
        Seq::empty()
    } else {
        let prev = shown_parts(segs, cwd, dates, (n - 1) as nat);
        match segment_text(segs[n - 1], cwd, dates[n - 1]) {
            Some(t) => prev.push(t),
            None => prev,
        }
    }
}

/// `parts` joined by two spaces.
pub open spec fn join_parts(parts: Seq<Seq<char>>) -> Seq<char>
    decreases parts.len(),
{
    if parts.len() == 0 {
        Seq::empty()
    } else if parts.len() == 1 {
        parts[0]
    } else {
        join_parts(parts.drop_last()) + seq![' ', ' '] + parts.last()
    }
}

/// The right-hand status bar text for the segments `segs`: the texts they
/// show joined by two spaces, `None` when none shows anything.
pub open spec fn status_text(
    segs: Seq<Seq<char>>,
    cwd: Option<Seq<char>>,
    dates: Seq<Option<Seq<char>>>,
) -> Option<Seq<char>> {
    let parts = shown_parts(segs, cwd, dates, segs.len());
    if parts.len() == 0 {
        None
    } else {
        Some(join_parts(parts))
    }
}

pub open spec fn strings_view(v: Seq<String>) -> Seq<Seq<char>> {
    v.map_values(|s: String| s@)
}

pub open spec fn opt_str_view(o: Option<&str>) -> Option<Seq<char>> {
    match o {
        Some(s) => Some(s@),
        None => None,
    }
}

pub open spec fn opt_string_view(o: Option<String>) -> Option<Seq<char>> {
    match o {
        Some(s) => Some(s@),
        None => None,
    }
}

pub open spec fn dates_view(v: Seq<Option<String>>) -> Seq<Option<Seq<char>>> {
    v.map_values(|o: Option<String>| opt_string_view(o))
}

/// Without segments the status bar shows nothing.
pub proof fn lemma_no_segments(cwd: Option<Seq<char>>, dates: Seq<Option<Seq<char>>>)
    ensures
        status_text(Seq::empty(), cwd, dates) is None,
{
}

/// A single segment shows exactly its own text: the working directory for
/// `%pwd`, its date for a date segment, itself otherwise.
pub proof fn lemma_single_segment(seg: Seq<char>, cwd: Option<Seq<char>>, date: Option<Seq<char>>)
    ensures
        status_text(seq![seg], cwd, seq![date]) == segment_text(seg, cwd, date),
        seg == pwd_token() ==> status_text(seq![seg], cwd, seq![date]) == cwd,
        is_date_token(seg) ==> status_text(seq![seg], cwd, seq![date]) == date,
        seg != pwd_token() && !is_date_token(seg) ==> status_text(seq![seg], cwd, seq![date])
            == Some(seg),
{
    assert(shown_parts(seq![seg], cwd, seq![date], 0) =~= Seq::<Seq<char>>::empty());
    assert(is_date_token(seg) ==> seg != pwd_token()) by {
        if is_date_token(seg) && seg == pwd_token() {
            assert(seg.len() == 4);
        }
    }
}

/// Only the dates of date segments matter: dates that agree on every date
/// segment give the same texts.
pub proof fn lemma_dates_only_for_date_segments(
    segs: Seq<Seq<char>>,
    cwd: Option<Seq<char>>,
    d1: Seq<Option<Seq<char>>>,
    d2: Seq<Option<Seq<char>>>,
    n: nat,
)
    requires
        n <= segs.len(),
        forall|i: int| 0 <= i < n && is_date_token(#[trigger] segs[i]) ==> d1[i] == d2[i],
    ensures
        shown_parts(segs, cwd, d1, n) == shown_parts(segs, cwd, d2, n),
        n == segs.len() ==> status_text(segs, cwd, d1) == status_text(segs, cwd, d2),
    decreases n,
{
    if n > 0 {
        lemma_dates_only_for_date_segments(segs, cwd, d1, d2, (n - 1) as nat);
        assert(segment_text(segs[n - 1], cwd, d1[n - 1]) == segment_text(segs[n - 1], cwd, d2[n - 1]));
    }
}

/// `seg` is `%pwd`.
fn is_pwd_segment(seg: &str) -> (b: bool)
    ensures
        b == (seg@ == pwd_token()),
{
    if seg.unicode_len() != 4 {
        return false;
    }
    let b = seg.get_char(0) == '%' && seg.get_char(1) == 'p' && seg.get_char(2) == 'w'
        && seg.get_char(3) == 'd';
    if b {
        assert(seg@ =~= pwd_token());
    }
    b
}

/// `seg` is `%date{FORMAT}`.
fn is_date_segment(seg: &str) -> (b: bool)
    ensures
        b == is_date_token(seg@),
{
    let n = seg.unicode_len();
    if n < 7 {
        return false;
    }
    let b = seg.get_char(0) == '%' && seg.get_char(1) == 'd' && seg.get_char(2) == 'a'
        && seg.get_char(3) == 't' && seg.get_char(4) == 'e' && seg.get_char(5) == '{'
        && seg.get_char(n - 1) == '}';
    if b {
        assert(seg@.take(6) =~= seq!['%', 'd', 'a', 't', 'e', '{']);
    } else {
        proof {
            if seg@.take(6) == seq!['%', 'd', 'a', 't', 'e', '{'] {
                assert(seg@.take(6)[0] == seg@[0]);
                assert(seg@.take(6)[1] == seg@[1]);
                assert(seg@.take(6)[2] == seg@[2]);
                assert(seg@.take(6)[3] == seg@[3]);
                assert(seg@.take(6)[4] == seg@[4]);
                assert(seg@.take(6)[5] == seg@[5]);
            }
        }
    }
    b
}

/// What segment `seg` shows, given the working directory and its date.
fn shown_text(seg: &str, cwd: Option<&str>, date: &Option<String>) -> (t: Option<String>)
    ensures
        opt_string_view(t) == segment_text(seg@, opt_str_view(cwd), opt_string_view(*date)),
{
    if is_pwd_segment(seg) {
        match cwd {
            Some(c) => Some(String::from_str(c)),
            None => None,
        }
    } else if is_date_segment(seg) {
        match date {
            Some(d) => Some(d.clone()),
            None => None,
        }
    } else {
        Some(String::from_str(seg))
    }
}

/// The status bar text for `segments`, given the working directory and
/// the formatted date of each segment (`dates[i]` is read only where
/// segment `i` is a date segment).
pub fn resolve_parts(segments: &[String], cwd: Option<&str>, dates: &[Option<String>]) -> (text:
    Option<String>)
    requires
        dates@.len() == segments@.len(),
    ensures
        opt_string_view(text) == status_text(
            strings_view(segments@),
            opt_str_view(cwd),
            dates_view(dates@),
        ),
{
    let ghost segs = strings_view(segments@);
    let ghost ds = dates_view(dates@);
    let ghost c = opt_str_view(cwd);
    let mut out = String::new();
    let mut any = false;
    let mut i: usize = 0;
    while i < segments.len()
        invariant
            i <= segments@.len(),
            dates@.len() == segments@.len(),
            segs == strings_view(segments@),
            ds == dates_view(dates@),
            c == opt_str_view(cwd),
            any == (shown_parts(segs, c, ds, i as nat).len() > 0),
            any ==> out@ == join_parts(shown_parts(segs, c, ds, i as nat)),
        decreases segments@.len() - i,
    {
        let ghost prev = shown_parts(segs, c, ds, i as nat);
        let t = shown_text(segments[i].as_str(), cwd, &dates[i]);
        assert(segs[i as int] == segments@[i as int]@);
        assert(ds[i as int] == opt_string_view(dates@[i as int]));
        match t {
            Some(t) => {
                if any {
                    push_char(&mut out, ' ');
                    push_char(&mut out, ' ');
                    push_str(&mut out, t.as_str());
                    assert(prev.push(t@).drop_last() =~= prev);
                    assert(out@ =~= join_parts(prev.push(t@)));
                } else {
                    out = t;
                    assert(prev.push(out@) =~= seq![out@]);
                }
                any = true;
            },
            None => {},
        }
        i = i + 1;
    }
    if any {
        Some(out)
    } else {
        None
    }
}

/// An instant with the local time zone's offset at that instant, as plain
/// values: seconds and nanoseconds since the Unix epoch, and the offset
/// from UTC in seconds.
#[derive(Clone, Copy, Debug)]
pub struct LocalTime {
    pub secs: i64,
    pub nanos: u32,
    pub offset_secs: i32,
}

/// What chrono's strftime formatting writes for `time` in the format
/// `fmt`; `None` when the format is invalid or the time out of chrono's
/// range.
pub uninterp spec fn strftime(time: LocalTime, fmt: Seq<char>) -> Option<Seq<char>>;

/// Formats `time` at its offset with chrono's `DateTime::format(fmt)`,
/// whose text is a function of the time, the offset and the format alone
/// (`strftime`); chrono's error for an invalid format, or a time it cannot
/// hold, gives `None`.
#[verifier::external_body]
fn format_time(time: &LocalTime, fmt: &str) -> (r: Option<String>)
    ensures
        opt_string_view(r) == strftime(*time, fmt@),
{
    let offset = chrono::FixedOffset::east_opt(time.offset_secs)?;
    let utc = chrono::DateTime::from_timestamp(time.secs, time.nanos)?;
    let mut s = String::new();
    match write!(s, "{}", utc.with_timezone(&offset).format(fmt)) {
        Ok(()) => Some(s),
        Err(_) => None,
    }
}

/// The date texts at `time` for the segments `segs`: the date segments in
/// their own format, nothing for the others.
pub open spec fn date_texts(segs: Seq<Seq<char>>, time: LocalTime) -> Seq<Option<Seq<char>>> {
    Seq::new(
        segs.len(),
        |i: int|
            if is_date_token(segs[i]) {
                strftime(time, date_format(segs[i]))
            } else {
                None
            },
    )
}

/// The strftime format of every date segment, in segment order; `None` for
/// the other segments.
pub fn date_formats(segments: &[String]) -> (f: Vec<Option<String>>)
    ensures
        f@.len() == segments@.len(),
        forall|i: int|
            0 <= i < segments@.len() ==> #[trigger] opt_string_view(f@[i]) == (if is_date_token(
                segments@[i]@,
            ) {
                Some(date_format(segments@[i]@))
            } else {
                None
            }),
{
    let mut f: Vec<Option<String>> = Vec::new();
    let mut i: usize = 0;
    while i < segments.len()
        invariant
            i <= segments@.len(),
            f@.len() == i,
            forall|k: int|
                0 <= k < i ==> #[trigger] opt_string_view(f@[k]) == (if is_date_token(segments@[k]@) {
                    Some(date_format(segments@[k]@))
                } else {
                    None
                }),
        decreases segments@.len() - i,
    {
        let seg = segments[i].as_str();
        if is_date_segment(seg) {
            let n = seg.unicode_len();
            let fmt = String::from_str(seg.substring_char(6, n - 1));
            f.push(Some(fmt));
        } else {
            f.push(None);
        }
        i = i + 1;
    }
    f
}

/// The right-hand status bar text at the local time `now`: `%pwd`
/// segments show `cwd` (when known), `%date{FORMAT}` segments `now` in
/// their format (as `date_formats` extracts it), other segments
/// themselves; the shown texts are joined by two spaces, and nothing
/// showing gives `None`.
pub fn resolve_status_bar_right(segments: &[String], cwd: Option<&str>, now: &LocalTime) -> (text:
    Option<String>)
    ensures
        opt_string_view(text) == status_text(
            strings_view(segments@),
            opt_str_view(cwd),
            date_texts(strings_view(segments@), *now),
        ),
{
    let formats = date_formats(segments);
    let ghost segs = strings_view(segments@);
    let mut dates: Vec<Option<String>> = Vec::new();
    let mut i: usize = 0;
    while i < formats.len()
        invariant
            i <= formats@.len(),
            formats@.len() == segments@.len(),
            segs == strings_view(segments@),
            forall|k: int|
                0 <= k < segments@.len() ==> #[trigger] opt_string_view(formats@[k]) == (if is_date_token(
                    segments@[k]@,
                ) {
                    Some(date_format(segments@[k]@))
                } else {
                    None
                }),
            dates@.len() == i,
            forall|k: int| 0 <= k < i ==> #[trigger] dates_view(dates@)[k] == date_texts(segs, *now)[k],
        decreases formats@.len() - i,
    {
        let ghost before = dates@;
        match &formats[i] {
            Some(fmt) => dates.push(format_time(now, fmt.as_str())),
            None => dates.push(None),
        }
        proof {
            assert(opt_string_view(formats@[i as int]) == (if is_date_token(segments@[i as int]@) {
                Some(date_format(segments@[i as int]@))
            } else {
                None
            }));
            assert forall|k: int| 0 <= k < i + 1 implies #[trigger] dates_view(dates@)[k] == date_texts(
                segs,
                *now,
            )[k] by {
                if k < i {
                    assert(dates@[k] == before[k]);
                    assert(dates_view(before)[k] == date_texts(segs, *now)[k]);
                }
            }
        }
        i = i + 1;
    }
    let text = resolve_parts(segments, cwd, dates.as_slice());
    assert(dates_view(dates@) =~= date_texts(segs, *now));
    text
}

} // verus!
