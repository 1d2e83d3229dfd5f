//! Endpoint logic: parameters in, reply values out.

use vstd::prelude::*;

use crate::config::constant_time_eq;
use crate::server::auth::{from_headers, header_token};
use crate::strmap::{assoc, law_put_then_get, put, StrMap};
use crate::text::{
    all_digits, decimal, digits_value, is_all_digits, lower_ascii, lower_seq, opt_str_view,
    parse_i64, same, signed_value,
};

pub mod accounts;
pub mod chatlab_pull;
pub mod contacts;
pub mod group_members;
pub mod health;
pub mod media;
pub mod messages;
pub mod push_events;
pub mod sessions;
pub mod sync;

verus! {

/// The content type of a file extension in small letters.
pub open spec fn content_type_of(ext: Seq<char>) -> Seq<char> {
    if ext == "jpg"@ || ext == "jpeg"@ {
        "image/jpeg"@
    } else if ext == "png"@ {
        "image/png"@
    } else if ext == "gif"@ {
        "image/gif"@
    } else if ext == "webp"@ {
        "image/webp"@
    } else if ext == "bmp"@ {
        "image/bmp"@
    } else if ext == "wav"@ {
        "audio/wav"@
    } else if ext == "mp4"@ {
        "video/mp4"@
    } else if ext == "amr"@ {
        "audio/amr"@
    } else if ext == "silk"@ {
        "audio/silk"@
    } else if ext == "mp3"@ {
        "audio/mpeg"@
    } else {
        "application/octet-stream"@
    }
}

/// Media content type by file extension, whatever its letter case.
pub fn media_content_type(ext: &str) -> (r: &'static str)
    ensures
        r@ == content_type_of(lower_seq(ext@)),
{
    let lower = lower_ascii(ext);
    let e = lower.as_str();
    if same(e, "jpg") || same(e, "jpeg") {
        "image/jpeg"
    } else if same(e, "png") {
        "image/png"
    } else if same(e, "gif") {
        "image/gif"
    } else if same(e, "webp") {
        "image/webp"
    } else if same(e, "bmp") {
        "image/bmp"
    } else if same(e, "wav") {
        "audio/wav"
    } else if same(e, "mp4") {
        "video/mp4"
    } else if same(e, "amr") {
        "audio/amr"
    } else if same(e, "silk") {
        "audio/silk"
    } else if same(e, "mp3") {
        "audio/mpeg"
    } else {
        "application/octet-stream"
    }
}

/// A switch parameter, accepted as a JSON bool (POST body) or as "1"/"true"/"0"/"false"
/// (query string). Unknown strings count as unset.
#[derive(Debug, Clone, Copy, PartialEq, Eq, Structural)]
pub enum FlexBool {
    Unset,
    True,
    False,
}

impl Default for FlexBool {
    fn default() -> (r: Self)
        ensures
            r is Unset,
    {
        FlexBool::Unset
    }
}

/// A switch parameter as it was sent.
#[derive(Debug)]
pub enum SwitchValue {
    Null,
    Bool(bool),
    Text(String),
    /// A number, list or object.
    Other,
}

/// The switch that a value sets; none for a value that is no switch.
pub open spec fn switch_of(v: SwitchValue) -> Option<FlexBool> {
    match v {
        SwitchValue::Null => Some(FlexBool::Unset),
        SwitchValue::Bool(b) => Some(
            if b {
                FlexBool::True
            } else {
                FlexBool::False
            },
        ),
        SwitchValue::Text(s) => Some(
            if s@ == "1"@ || lower_seq(s@) == "true"@ {
                FlexBool::True
            } else if s@ == "0"@ || lower_seq(s@) == "false"@ {
                FlexBool::False
            } else {
                FlexBool::Unset
            },
        ),
        SwitchValue::Other => None,
    }
}

impl FlexBool {
    /// Set to true.
    pub fn is_true(self) -> (r: bool)
        ensures
            r == self is True,
    {
        self == FlexBool::True
    }

    /// Set to false.
    pub fn is_false(self) -> (r: bool)
        ensures
            r == self is False,
    {
        self == FlexBool::False
    }

    /// The switch that a value sets. `None` for a value that is neither bool nor string.
    pub fn from_value(v: &SwitchValue) -> (r: Option<FlexBool>)
        ensures
            r == switch_of(*v),
    {
        match v {
            SwitchValue::Null => Some(FlexBool::Unset),
            SwitchValue::Bool(true) => Some(FlexBool::True),
            SwitchValue::Bool(false) => Some(FlexBool::False),
            SwitchValue::Text(s) => {
                let lower = lower_ascii(s.as_str());
                if same(s.as_str(), "1") || same(lower.as_str(), "true") {
                    Some(FlexBool::True)
                } else if same(s.as_str(), "0") || same(lower.as_str(), "false") {
                    Some(FlexBool::False)
                } else {
                    Some(FlexBool::Unset)
                }
            },
            SwitchValue::Other => None,
        }
    }

    /// The JSON bool that stands for a set switch; `None` for an unset one, so that an
    /// absent body field never overwrites a query-string value.
    pub fn to_json(self) -> (r: Option<bool>)
        ensures
            r == (match self {
                FlexBool::Unset => None,
                FlexBool::True => Some(true),
                FlexBool::False => Some(false),
            }),
    {
        match self {
            FlexBool::Unset => None,
            FlexBool::True => Some(true),
            FlexBool::False => Some(false),
        }
    }
}

/// A switch survives being written as a JSON bool and read back.
pub proof fn law_switch_round_trip(f: FlexBool)
    requires
        !(f is Unset),
    ensures
        switch_of(SwitchValue::Bool(f is True)) == Some(f),
{
}

/// A leap year of the Gregorian calendar.
pub open spec fn leap_year(y: int) -> bool {
    (y % 4 == 0 && y % 100 != 0) || y % 400 == 0
}

/// How many days a month has.
pub open spec fn month_days(y: int, m: int) -> int {
    if m == 2 {
        if leap_year(y) {
            29
        } else {
            28
        }
    } else if m == 4 || m == 6 || m == 9 || m == 11 {
        30
    } else {
        31
    }
}

/// A date of the Gregorian calendar.
pub open spec fn valid_date(y: int, m: int, d: int) -> bool {
    1 <= m <= 12 && 1 <= d <= month_days(y, m)
}

/// How many days of a year stand before a month.
pub open spec fn days_before_month(y: int, m: int) -> int
    decreases m,
{
    if m <= 1 {
        0
    } else {
        days_before_month(y, m - 1) + month_days(y, m - 1)
    }
}

/// How many days stand before a year, from the year 0 on.
pub open spec fn days_before_year(y: int) -> int {
    365 * y + (y + 3) / 4 - (y + 99) / 100 + (y + 399) / 400
}

/// The number of a date's day, 0 for 1970-01-01.
pub open spec fn epoch_day(y: int, m: int, d: int) -> int {
    days_before_year(y) - days_before_year(1970) + days_before_month(y, m) + d - 1
}

/// The year of a "YYYYMMDD" text.
pub open spec fn year_of(s: Seq<char>) -> int {
    digits_value(s.subrange(0, 4)) as int
}

/// The month of a "YYYYMMDD" text.
pub open spec fn month_of(s: Seq<char>) -> int {
    digits_value(s.subrange(4, 6)) as int
}

/// The day of a "YYYYMMDD" text.
pub open spec fn day_of(s: Seq<char>) -> int {
    digits_value(s.subrange(6, 8)) as int
}

/// `chrono::NaiveDate::parse_from_str` with "%Y%m%d", then `and_hms_opt`, `and_utc` and
/// `timestamp`: the Unix time of that time of day, in UTC, on the date that eight digits
/// tell. Nothing where they tell no date of the Gregorian calendar.
#[verifier::external_body]
fn date_timestamp(s: &str, hour: u32, minute: u32, second: u32) -> (r: Option<i64>)
    requires
        s@.len() == 8,
        all_digits(s@),
        hour < 24,
        minute < 60,
        second < 60,
    ensures
        r is Some == valid_date(year_of(s@), month_of(s@), day_of(s@)),
        r is Some ==> r->0 == epoch_day(year_of(s@), month_of(s@), day_of(s@)) * 86400 + hour * 3600
            + minute * 60 + second,
{
    let date = chrono::NaiveDate::parse_from_str(s, "%Y%m%d").ok()?;
    let time = date.and_hms_opt(hour, minute, second)?;
    Some(time.and_utc().timestamp())
}

/// The time that a bound means: eight digits are a date, whose end is its last second;
/// anything else is a number of seconds.
pub open spec fn time_bound(s: Seq<char>, is_end: bool) -> Option<int> {
    if s.len() == 8 && all_digits(s) {
        if valid_date(year_of(s), month_of(s), day_of(s)) {
            let start = epoch_day(year_of(s), month_of(s), day_of(s)) * 86400;
            Some(
                if is_end {
                    start + 86399
                } else {
                    start
                },
            )
        } else {
            None
        }
    } else {
        match signed_value(s) {
            Some(i) => if i64::MIN <= i <= i64::MAX {
                Some(i)
            } else {
                None
            },
            None => None,
        }
    }
}

/// The view of an optional time.
pub open spec fn opt_time(o: Option<i64>) -> Option<int> {
    match o {
        Some(t) => Some(t as int),
        None => None,
    }
}

/// Parse a time bound: "YYYYMMDD" (an end expands to 23:59:59) or unix seconds.
pub fn parse_time_bound(s: &str, is_end: bool) -> (r: Option<i64>)
    ensures
        opt_time(r) == time_bound(s@, is_end),
{
    let n: usize = crate::text::chars_of(s).len();
    if n == 8 && is_all_digits(s) {
        return if is_end {
            date_timestamp(s, 23, 59, 59)
        } else {
            date_timestamp(s, 0, 0, 0)
        };
    }
    parse_i64(s)
}

/// A date as an end covers exactly the day that it begins as a start.
pub proof fn law_date_bounds_cover_the_day(s: Seq<char>)
    requires
        s.len() == 8,
        all_digits(s),
    ensures
        time_bound(s, true) is Some == time_bound(s, false) is Some,
        time_bound(s, false) is Some ==> time_bound(s, true)->0 == time_bound(s, false)->0 + 86399,
        time_bound(s, false) is Some ==> time_bound(s, false)->0 % 86400 == 0,
{
}

/// The bound of an optional parameter; what cannot be parsed bounds nothing.
pub open spec fn opt_bound(o: Option<Seq<char>>, is_end: bool) -> Option<int> {
    match o {
        Some(s) => time_bound(s, is_end),
        None => None,
    }
}

/// The bound of an optional parameter.
pub fn parse_opt_bound(o: Option<&str>, is_end: bool) -> (r: Option<i64>)
    ensures
        opt_time(r) == opt_bound(opt_str_view(o), is_end),
{
    match o {
        Some(s) => parse_time_bound(s, is_end),
        None => None,
    }
}

/// Some transport carries the token.
pub open spec fn carries_token(
    token: Seq<char>,
    authorization: Option<Seq<char>>,
    x_api_key: Option<Seq<char>>,
    param: Option<Seq<char>>,
) -> bool {
    param == Some(token) || header_token(authorization, x_api_key) == Some(token)
}

/// Verify the token from any transport: the merged parameters or the headers.
pub fn authorized(
    token: &str,
    authorization: Option<&str>,
    x_api_key: Option<&str>,
    param: Option<&str>,
) -> (r: bool)
    ensures
        r == carries_token(
            token@,
            opt_str_view(authorization),
            opt_str_view(x_api_key),
            opt_str_view(param),
        ),
{
    if let Some(t) = param {
        if constant_time_eq(t, token) {
            return true;
        }
    }
    match from_headers(authorization, x_api_key) {
        Some(t) => constant_time_eq(t.as_str(), token),
        None => false,
    }
}

/// Parameters with the fields of a body joined: a field that is set wins, a null one does
/// not.
pub open spec fn with_fields<V>(params: Seq<(Seq<char>, V)>, fields: Seq<(String, Option<V>)>) -> Seq<
    (Seq<char>, V),
>
    decreases fields.len(),
{
    if fields.len() == 0 {
        params
    } else {
        let before = with_fields(params, fields.drop_last());
        match fields.last().1 {
            Some(v) => put(before, fields.last().0@, v),
            None => before,
        }
    }
}

/// Merge the parameters of a query string with those of a JSON body. `body` is `None`
/// where it is empty or no JSON object: the parameters stay as they are.
pub fn merge_body<V>(params: StrMap<V>, body: Option<Vec<(String, Option<V>)>>) -> (r: StrMap<V>)
    requires
        params.wf(),
    ensures
        r.wf(),
        r@ == (match body {
            Some(fields) => with_fields(params@, fields@),
            None => params@,
        }),
{
    let mut r = params;
    match body {
        None => {},
        Some(fields) => {
            let ghost all = fields@;
            let ghost mut i: int = 0;
            assert(all.take(0) =~= Seq::empty());
            for f in it: fields
                invariant
                    it.seq() == all,
                    i == it.index(),
                    r.wf(),
                    r@ == with_fields(params@, all.take(i)),
            {
                proof {
                    let now = all.take(i + 1);
                    assert(now.drop_last() =~= all.take(i));
                    assert(now.last() == f);
                }
                let (name, value) = f;
                if let Some(v) = value {
                    r.insert(name, v);
                }
                proof {
                    i = i + 1;
                }
            }
            assert(all.take(all.len() as int) =~= all);
        },
    }
    r
}

/// A body field that is set takes the place of the parameter of its name; a parameter
/// that the body does not name, or names with null, stays.
pub proof fn law_body_wins_where_set<V>(
    params: Seq<(Seq<char>, V)>,
    fields: Seq<(String, Option<V>)>,
    name: Seq<char>,
)
    ensures
        forall|i: int|
            #![trigger fields[i]]
            0 <= i < fields.len() && fields[i].0@ == name && fields[i].1 is Some && (forall|j: int|
                i < j < fields.len() ==> (#[trigger] fields[j]).0@ != name) ==> assoc(
                with_fields(params, fields),
                name,
            ) == fields[i].1,
        (forall|i: int|
            0 <= i < fields.len() && (#[trigger] fields[i]).0@ == name ==> fields[i].1 is None)
            ==> assoc(with_fields(params, fields), name) == assoc(params, name),
    decreases fields.len(),
{
    if fields.len() > 0 {
        let before = fields.drop_last();
        let last = fields.last();
        law_body_wins_where_set(params, before, name);
        if last.1 is Some {
            law_put_then_get(with_fields(params, before), last.0@, last.1->0);
        }
        if forall|i: int|
            0 <= i < fields.len() && (#[trigger] fields[i]).0@ == name ==> fields[i].1 is None {
            assert forall|i: int| 0 <= i < before.len() && (#[trigger] before[i]).0@ == name implies
                before[i].1 is None by {
                assert(fields[i] == before[i]);
            }
        }
        assert forall|i: int|
            #![trigger fields[i]]
            0 <= i < fields.len() && fields[i].0@ == name && fields[i].1 is Some && (forall|j: int|
                i < j < fields.len() ==> (#[trigger] fields[j]).0@ != name) implies assoc(
            with_fields(params, fields),
            name,
        ) == fields[i].1 by {
            if i < before.len() {
                assert(before[i] == fields[i]);
                assert(fields[fields.len() - 1].0@ != name);
                assert forall|j: int| i < j < before.len() implies (#[trigger] before[j]).0@
                    != name by {
                    assert(fields[j] == before[j]);
                }
            }
        }
    }
}

/// `v` brought into `lo ..= hi`.
pub open spec fn clamped(v: int, lo: int, hi: int) -> int {
    if v < lo {
        lo
    } else if v > hi {
        hi
    } else {
        v
    }
}

/// `v` brought into `lo ..= hi`.
pub fn clamp(v: usize, lo: usize, hi: usize) -> (r: usize)
    requires
        lo <= hi,
    ensures
        r == clamped(v as int, lo as int, hi as int),
{
    if v < lo {
        lo
    } else if v > hi {
        hi
    } else {
        v
    }
}

/// What each extension is sent as; any other one is sent as plain bytes.
pub proof fn law_content_types(ext: Seq<char>)
    ensures
        ext == "jpg"@ || ext == "jpeg"@ ==> content_type_of(ext) == "image/jpeg"@,
        ext == "png"@ ==> content_type_of(ext) == "image/png"@,
        ext == "gif"@ ==> content_type_of(ext) == "image/gif"@,
        ext == "webp"@ ==> content_type_of(ext) == "image/webp"@,
        ext == "bmp"@ ==> content_type_of(ext) == "image/bmp"@,
        ext == "wav"@ ==> content_type_of(ext) == "audio/wav"@,
        ext == "mp4"@ ==> content_type_of(ext) == "video/mp4"@,
        ext == "amr"@ ==> content_type_of(ext) == "audio/amr"@,
        ext == "silk"@ ==> content_type_of(ext) == "audio/silk"@,
        ext == "mp3"@ ==> content_type_of(ext) == "audio/mpeg"@,
        ext != "jpg"@ && ext != "jpeg"@ && ext != "png"@ && ext != "gif"@ && ext != "webp"@ && ext
            != "bmp"@ && ext != "wav"@ && ext != "mp4"@ && ext != "amr"@ && ext != "silk"@ && ext
            != "mp3"@ ==> content_type_of(ext) == "application/octet-stream"@,
{
    reveal_strlit("jpg");
    reveal_strlit("jpeg");
    reveal_strlit("png");
    reveal_strlit("gif");
    reveal_strlit("webp");
    reveal_strlit("bmp");
    reveal_strlit("wav");
    reveal_strlit("mp4");
    reveal_strlit("amr");
    reveal_strlit("silk");
    reveal_strlit("mp3");
    assert("jpg"@[0] == 'j' && "jpeg"@[0] == 'j' && "png"@[0] == 'p' && "gif"@[0] == 'g');
    assert("webp"@[0] == 'w' && "wav"@[0] == 'w' && "bmp"@[0] == 'b' && "amr"@[0] == 'a');
    assert("silk"@[0] == 's' && "mp4"@[0] == 'm' && "mp3"@[0] == 'm');
    assert("mp4"@[2] == '4' && "mp3"@[2] == '3');
    assert("webp"@[1] == 'e' && "wav"@[1] == 'a');
    assert("jpg"@.len() == 3 && "jpeg"@.len() == 4);
}

/// A switch is on by `true`, `1` or the text `true` in letters of any size, off by `false`,
/// `0` or the text `false`, and not set by anything else that is a text or nothing.
pub proof fn law_switches(s: String)
    ensures
        switch_of(SwitchValue::Bool(true)) == Some(FlexBool::True),
        switch_of(SwitchValue::Bool(false)) == Some(FlexBool::False),
        switch_of(SwitchValue::Null) == Some(FlexBool::Unset),
        switch_of(SwitchValue::Other) is None,
        s@ == seq!['1'] ==> switch_of(SwitchValue::Text(s)) == Some(FlexBool::True),
        s@ == seq!['0'] ==> switch_of(SwitchValue::Text(s)) == Some(FlexBool::False),
        lower_seq(s@) == "true"@ ==> switch_of(SwitchValue::Text(s)) == Some(FlexBool::True),
        lower_seq(s@) == "false"@ ==> switch_of(SwitchValue::Text(s)) == Some(FlexBool::False),
        s@ != seq!['1'] && s@ != seq!['0'] && lower_seq(s@) != "true"@ && lower_seq(s@) != "false"@
            ==> switch_of(SwitchValue::Text(s)) == Some(FlexBool::Unset),
{
    reveal_strlit("1");
    reveal_strlit("0");
    reveal_strlit("true");
    reveal_strlit("false");
    assert("1"@ =~= seq!['1']);
    assert("0"@ =~= seq!['0']);
    assert("true"@.len() == 4 && "false"@.len() == 5);
    assert("1"@[0] == '1' && "0"@[0] == '0');
    assert(lower_seq(s@).len() == s@.len());
}

/// A year has twelve months of the lengths that the calendar gives them. Every fourth year
/// has a day more in February, but for the hundredth ones that are no four-hundredth ones.
pub proof fn law_month_lengths(y: int)
    ensures
        month_days(y, 1) == 31 && month_days(y, 3) == 31 && month_days(y, 5) == 31,
        month_days(y, 7) == 31 && month_days(y, 8) == 31 && month_days(y, 10) == 31,
        month_days(y, 12) == 31,
        month_days(y, 4) == 30 && month_days(y, 6) == 30 && month_days(y, 9) == 30,
        month_days(y, 11) == 30,
        y % 400 == 0 ==> month_days(y, 2) == 29,
        y % 100 == 0 && y % 400 != 0 ==> month_days(y, 2) == 28,
        y % 4 == 0 && y % 100 != 0 ==> month_days(y, 2) == 29,
        y % 4 != 0 ==> month_days(y, 2) == 28,
{
    assert(y % 400 == 0 ==> y % 4 == 0);
}

proof fn lemma_year_length(y: int)
    ensures
        days_before_month(y, 12) + 31 == if leap_year(y) {
            366int
        } else {
            365
        },
        days_before_month(y, 1) == 0,
{
    reveal_with_fuel(days_before_month, 13);
}

/// Days are counted one by one from the first of January 1970 on: the next day of a month,
/// the first of the next month and the first of the next year each are one day later.
pub proof fn law_days_follow_each_other(y: int, m: int, d: int)
    requires
        valid_date(y, m, d),
    ensures
        epoch_day(1970, 1, 1) == 0,
        valid_date(y, m, d + 1) ==> epoch_day(y, m, d + 1) == epoch_day(y, m, d) + 1,
        d == month_days(y, m) && m < 12 ==> epoch_day(y, m + 1, 1) == epoch_day(y, m, d) + 1,
        d == month_days(y, m) && m == 12 ==> epoch_day(y + 1, 1, 1) == epoch_day(y, m, d) + 1,
{
    reveal_with_fuel(days_before_month, 2);
    assert(days_before_month(1970, 1) == 0);
    if m == 12 {
        lemma_year_length(y);
        lemma_next_year(y);
    }
}

proof fn lemma_steps_of_4(y: int)
    ensures
        (y + 4) / 4 - (y + 3) / 4 == if y % 4 == 0 {
            1int
        } else {
            0
        },
{
}

proof fn lemma_steps_of_100(y: int)
    ensures
        (y + 100) / 100 - (y + 99) / 100 == if y % 100 == 0 {
            1int
        } else {
            0
        },
{
}

proof fn lemma_steps_of_400(y: int)
    ensures
        (y + 400) / 400 - (y + 399) / 400 == if y % 400 == 0 {
            1int
        } else {
            0
        },
{
}

proof fn lemma_year_steps(y: int, a: int, b: int, c: int)
    requires
        a == y % 4,
        b == y % 100,
        c == y % 400,
    ensures
        c == 0 ==> b == 0,
        b == 0 ==> a == 0,
{
}

proof fn lemma_next_year(y: int)
    ensures
        days_before_year(y + 1) - days_before_year(y) == if leap_year(y) {
            366int
        } else {
            365
        },
{
    lemma_steps_of_4(y);
    lemma_steps_of_100(y);
    lemma_steps_of_400(y);
    lemma_year_steps(y, y % 4, y % 100, y % 400);
    assert(days_before_year(y + 1) == 365 * (y + 1) + (y + 4) / 4 - (y + 100) / 100 + (y + 400)
        / 400);
}

/// Eight digits are a day: four of the year, two of the month and two of the day. As a start
/// they stand for its first second, as an end for its last, and a day that the calendar does
/// not have for nothing.
pub proof fn law_day_bounds(y: Seq<char>, m: Seq<char>, d: Seq<char>)
    requires
        y.len() == 4,
        m.len() == 2,
        d.len() == 2,
        all_digits(y),
        all_digits(m),
        all_digits(d),
    ensures
        ({
            let year = digits_value(y) as int;
            let month = digits_value(m) as int;
            let day = digits_value(d) as int;
            let known = 1 <= month <= 12 && 1 <= day <= month_days(year, month);
            let s = y + m + d;
            &&& known ==> time_bound(s, false) == Some(epoch_day(year, month, day) * 86400)
            &&& known ==> time_bound(s, true) == Some((epoch_day(year, month, day) + 1) * 86400 - 1)
            &&& !known ==> time_bound(s, false) is None && time_bound(s, true) is None
        }),
{
    let s = y + m + d;
    assert(s.subrange(0, 4) =~= y);
    assert(s.subrange(4, 6) =~= m);
    assert(s.subrange(6, 8) =~= d);
    assert forall|i: int| 0 <= i < s.len() implies crate::text::is_digit(#[trigger] s[i]) by {
        if i < 4 {
            assert(s[i] == y[i]);
        } else if i < 6 {
            assert(s[i] == m[i - 4]);
        } else {
            assert(s[i] == d[i - 6]);
        }
    }
}

/// Any other number is a time in seconds, as a start and as an end alike; a text that is no
/// number in range bounds nothing.
pub proof fn law_second_bounds(s: Seq<char>, i: i64, is_end: bool)
    ensures
        decimal(i as int).len() != 8 ==> time_bound(decimal(i as int), is_end) == Some(i as int),
        i < 0 ==> time_bound(decimal(i as int), is_end) == Some(i as int),
        s.len() != 8 && signed_value(s) is None ==> time_bound(s, is_end) is None,
        s.len() != 8 && signed_value(s) is Some && (signed_value(s)->0 < i64::MIN
            || signed_value(s)->0 > i64::MAX) ==> time_bound(s, is_end) is None,
        opt_bound(None, is_end) is None,
        opt_bound(Some(s), is_end) == time_bound(s, is_end),
{
    crate::text::law_decimal_value(i as int);
    if i < 0 {
        assert(decimal(i as int)[0] == '-');
        assert(!crate::text::is_digit(decimal(i as int)[0]));
    }
}

/// A request is authorized exactly where the token parameter is the token, or the headers
/// carry it.
pub proof fn law_tokens(
    token: Seq<char>,
    other: Seq<char>,
    authorization: Option<Seq<char>>,
    x_api_key: Option<Seq<char>>,
)
    ensures
        carries_token(token, authorization, x_api_key, Some(token)),
        !carries_token(token, None, None, None),
        other != token ==> !carries_token(token, None, None, Some(other)),
        carries_token(token, authorization, x_api_key, None) <==> header_token(
            authorization,
            x_api_key,
        ) == Some(token),
        header_token(authorization, x_api_key) == Some(token) ==> carries_token(
            token,
            authorization,
            x_api_key,
            Some(other),
        ),
{
}

/// A value is held between its bounds, and one between them stays.
pub proof fn law_clamped(v: int, lo: int, hi: int)
    requires
        lo <= hi,
    ensures
        lo <= clamped(v, lo, hi) <= hi,
        lo <= v <= hi ==> clamped(v, lo, hi) == v,
        v <= lo ==> clamped(v, lo, hi) == lo,
        v >= hi ==> clamped(v, lo, hi) == hi,
{
}

} // verus!
