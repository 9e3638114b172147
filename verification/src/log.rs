//! Log files: how they are named, when a new one is started, and which old
//! ones are removed.

use vstd::prelude::*;
use crate::banner::texts;
use crate::config::{is_verbatim, join, joins, law_paths_tell_names_apart, plain_name, Config};
use crate::number::{
    digit, digit_value, digits, lemma_digits_read_back, lemma_padding_keeps_value,
    to_padded_digits, zero_padded,
};
use crate::text::{chars_of, has_suffix, same_text};

verus! {

/// How log files end.
pub const LOG_SUFFIX: &'static str = ".log";

/// How large a log file gets that belongs to no device.
pub const COMMON_CUTOFF: u64 = 0xa0_0000;

/// How large a log file of a device gets.
pub const DEVICE_CUTOFF: u64 = 0x140_0000;

/// How many old log files are kept.
pub const KEPT_FILES: u32 = 5;

/// How long nothing more is said of failures to write a log, in nanoseconds.
pub const QUIET_NANOS: u64 = 60_000_000_000;

fn ends_with(s: &str, suffix: &str) -> (yes: bool)
    ensures
        yes == has_suffix(s@, suffix@),
{
    let len = s.unicode_len();
    let n = suffix.unicode_len();
    if n > len {
        return false;
    }
    let end = s.substring_char(len - n, len);
    assert(end@ =~= s@.skip(len - n));
    same_text(end, suffix)
}

/// Whether `a` comes before `b` in the order of texts: at the first character
/// in which they differ it has the smaller one, or it is what `b` starts with.
pub open spec fn before(a: Seq<char>, b: Seq<char>) -> bool
    decreases a.len(),
{
    if b.len() == 0 {
        false
    } else if a.len() == 0 {
        true
    } else if a[0] != b[0] {
        a[0] < b[0]
    } else {
        before(a.skip(1), b.skip(1))
    }
}

fn is_before(a: &str, b: &str) -> (yes: bool)
    ensures
        yes == before(a@, b@),
{
    let v = chars_of(a);
    let w = chars_of(b);
    let mut i: usize = 0;
    assert(a@.skip(0) =~= a@);
    assert(b@.skip(0) =~= b@);
    while i < v.len() && i < w.len()
        invariant
            v@ == a@,
            w@ == b@,
            i <= v@.len(),
            i <= w@.len(),
            before(a@, b@) == before(a@.skip(i as int), b@.skip(i as int)),
        decreases v@.len() - i,
    {
        assert(a@.skip(i as int).skip(1) =~= a@.skip(i + 1));
        assert(b@.skip(i as int).skip(1) =~= b@.skip(i + 1));
        if v[i] != w[i] {
            return v[i] < w[i];
        }
        i += 1;
    }
    i < w.len()
}

proof fn lemma_before_total(a: Seq<char>, b: Seq<char>)
    ensures
        !before(a, a),
        before(a, b) ==> !before(b, a),
        !before(a, b) && !before(b, a) ==> a == b,
    decreases a.len(),
{
    if a.len() > 0 {
        lemma_before_total(a.skip(1), a.skip(1));
        if b.len() > 0 {
            lemma_before_total(a.skip(1), b.skip(1));
            if a[0] == b[0] && a.skip(1) == b.skip(1) {
                assert(a =~= seq![a[0]] + a.skip(1));
                assert(b =~= seq![b[0]] + b.skip(1));
            }
        }
    } else if b.len() == 0 {
        assert(a =~= b);
    }
}

proof fn lemma_before_transitive(a: Seq<char>, b: Seq<char>, c: Seq<char>)
    requires
        !before(a, b),
        !before(b, c),
    ensures
        !before(a, c),
    decreases a.len(),
{
    if c.len() > 0 && b.len() > 0 && a.len() > 0 && a[0] == c[0] && a[0] == b[0] {
        lemma_before_transitive(a.skip(1), b.skip(1), c.skip(1));
    }
}

/// Whether no text comes before one that follows it.
pub open spec fn descending(list: Seq<Seq<char>>) -> bool {
    forall|i: int, j: int|
        0 <= i < j < list.len() ==> !before(#[trigger] list[i], #[trigger] list[j])
}

/// The names of log files among the names.
pub open spec fn log_names(names: Seq<Seq<char>>) -> Seq<Seq<char>> {
    names.filter(|name: Seq<char>| has_suffix(name, LOG_SUFFIX@))
}

/// The texts without the first `count`.
pub open spec fn all_but(list: Seq<Seq<char>>, count: int) -> Seq<Seq<char>> {
    if count < list.len() {
        list.skip(count)
    } else {
        seq![]
    }
}

/// Whether `sorted` holds the log files among the names, newest first.
pub open spec fn newest_first(sorted: Seq<Seq<char>>, names: Seq<Seq<char>>) -> bool {
    descending(sorted) && sorted.to_multiset() == log_names(names).to_multiset()
}

/// Whether the names are those of the log files but for the `count` newest,
/// the newer ones first.
pub open spec fn stale(list: Seq<Seq<char>>, names: Seq<Seq<char>>, count: int) -> bool {
    exists|sorted: Seq<Seq<char>>| #[trigger]
        newest_first(sorted, names) && list == all_but(sorted, count)
}

/// Puts a text into its place among texts in descending order.
fn insert_descending(list: &mut Vec<String>, s: String)
    requires
        descending(texts(old(list)@)),
    ensures
        descending(texts(final(list)@)),
        texts(final(list)@).to_multiset() == texts(old(list)@).to_multiset().insert(s@),
{
    let ghost views = texts(list@);
    let ghost text = s@;
    let mut i: usize = 0;
    while i < list.len() && !is_before(list[i].as_str(), s.as_str())
        invariant
            text == s@,
            views == texts(list@),
            i <= list@.len(),
            forall|j: int| 0 <= j < i ==> !before(#[trigger] views[j], text),
        decreases list@.len() - i,
    {
        assert(views[i as int] == list@[i as int]@);
        i += 1;
    }
    proof {
        broadcast use vstd::seq_lib::group_to_multiset_ensures;

        let at = i as int;
        let after = views.insert(at, text);
        if at < views.len() {
            assert(views[at] == list@[at]@);
            assert(before(views[at], text));
        }
        assert forall|j: int, k: int| 0 <= j < k < after.len() implies !before(
            #[trigger] after[j],
            #[trigger] after[k],
        ) by {
            if j < at && k < at {
                assert(after[j] == views[j] && after[k] == views[k]);
            } else if j < at && k == at {
                assert(after[j] == views[j]);
            } else if j < at {
                assert(after[j] == views[j] && after[k] == views[k - 1]);
            } else if j == at {
                assert(after[k] == views[k - 1]);
                lemma_before_total(views[at], text);
                if k - 1 > at {
                    assert(!before(views[at], views[k - 1]));
                    lemma_before_transitive(text, views[at], views[k - 1]);
                }
            } else {
                assert(after[j] == views[j - 1] && after[k] == views[k - 1]);
            }
        }
        assert(after.to_multiset() =~= views.to_multiset().insert(text));
    }
    list.insert(i, s);
    assert(texts(list@) =~= views.insert(i as int, text));
}

/// The log files to remove: all but the `count` newest.
pub fn stale_logs(names: Vec<String>, count: u32) -> (list: Vec<String>)
    ensures
        stale(texts(list@), texts(names@), count as int),
{
    let mut sorted: Vec<String> = Vec::new();
    let ghost all = texts(names@);
    let mut i: usize = 0;
    proof {
        reveal(Seq::filter);
        assert(texts(sorted@) =~= seq![]);
        assert(all.take(0) =~= seq![]);
        assert(log_names(all.take(0)) =~= seq![]);
    }
    while i < names.len()
        invariant
            all == texts(names@),
            i <= names@.len(),
            newest_first(texts(sorted@), all.take(i as int)),
        decreases names@.len() - i,
    {
        proof {
            broadcast use vstd::seq_lib::group_to_multiset_ensures;

            let head = all.take(i as int);
            assert(all.take(i + 1) =~= head.push(all[i as int]));
            head.lemma_filter_push(
                all[i as int],
                |name: Seq<char>| has_suffix(name, LOG_SUFFIX@),
            );
            assert(log_names(head).push(all[i as int]).to_multiset() =~= log_names(
                head,
            ).to_multiset().insert(all[i as int]));
        }
        if ends_with(names[i].as_str(), LOG_SUFFIX) {
            insert_descending(&mut sorted, names[i].clone());
        }
        i += 1;
    }
    assert(all.take(i as int) =~= all);
    let ghost order = texts(sorted@);
    let mut list: Vec<String> = Vec::new();
    let mut k: usize = 0;
    while k < sorted.len()
        invariant
            k <= sorted@.len(),
            order == texts(sorted@),
            texts(list@) == all_but(order.take(k as int), count as int),
        decreases sorted@.len() - k,
    {
        let ghost done = list@;
        if k as u64 >= count as u64 {
            list.push(sorted[k].clone());
            assert(texts(list@) =~= texts(done).push(order[k as int]));
        }
        k += 1;
        assert(texts(list@) =~= all_but(order.take(k as int), count as int));
    }
    assert(order.take(k as int) =~= order);
    assert(newest_first(order, all));
    list
}

/// A moment, as it is written in the name of a log file.
#[derive(Debug, Clone, Copy, PartialEq, Eq)]
pub struct Moment {
    pub year: u32,
    pub month: u32,
    pub day: u32,
    pub hour: u32,
    pub minute: u32,
    pub second: u32,
}

impl Moment {
    /// Whether each number has no more digits than its place.
    pub open spec fn wf(self) -> bool {
        self.year < 10000 && self.month < 100 && self.day < 100 && self.hour < 100 && self.minute
            < 100 && self.second < 100
    }

    /// Whether it is earlier than the other.
    pub open spec fn earlier(self, other: Moment) -> bool {
        self.year < other.year || self.year == other.year && (self.month < other.month || self.month
            == other.month && (self.day < other.day || self.day == other.day && (self.hour
            < other.hour || self.hour == other.hour && (self.minute < other.minute || self.minute
            == other.minute && self.second < other.second))))
    }
}

/// A number in decimal with this many digits.
pub open spec fn place(n: u32, width: int) -> Seq<char> {
    zero_padded(digits(n as int, 10), width)
}

/// The name of a log file that was started at the moment.
pub open spec fn log_name_of(m: Moment) -> Seq<char> {
    place(m.year, 4) + "_"@ + place(m.month, 2) + "_"@ + place(m.day, 2) + "__"@ + place(
        m.hour,
        2,
    ) + "_"@ + place(m.minute, 2) + "_"@ + place(m.second, 2) + LOG_SUFFIX@
}

/// The name of a log file that is started at the moment.
pub fn log_name(m: Moment) -> (name: String)
    ensures
        name@ == log_name_of(m),
{
    let mut name = to_padded_digits(m.year as u64, 10, 4);
    name.append("_");
    name.append(to_padded_digits(m.month as u64, 10, 2).as_str());
    name.append("_");
    name.append(to_padded_digits(m.day as u64, 10, 2).as_str());
    name.append("__");
    name.append(to_padded_digits(m.hour as u64, 10, 2).as_str());
    name.append("_");
    name.append(to_padded_digits(m.minute as u64, 10, 2).as_str());
    name.append("_");
    name.append(to_padded_digits(m.second as u64, 10, 2).as_str());
    name.append(LOG_SUFFIX);
    name
}

/// A log that is written to one file after another.
#[derive(Debug)]
pub struct RollingWriter {
    pub dir: String,
    pub cutoff: u64,
    pub count: u32,
}

impl RollingWriter {
    /// A log in the directory, with files up to this size, of which so many
    /// old ones are kept.
    pub fn new(dir: String, cutoff: u64, count: u32) -> (writer: RollingWriter)
        ensures
            writer.dir@ == dir@,
            writer.cutoff == cutoff,
            writer.count == count,
    {
        RollingWriter { dir, cutoff, count }
    }

    /// Whether a new file is started: there is none, or it has been written
    /// beyond its size.
    pub fn must_roll(&self, position: Option<u64>) -> (yes: bool)
        ensures
            yes == match position {
                Some(position) => position > self.cutoff,
                None => true,
            },
    {
        match position {
            Some(position) => position > self.cutoff,
            None => true,
        }
    }

    /// What is done to start a new file: the files to remove, of those that
    /// are in the directory, and the file to create.
    pub fn roll(&self, names: Vec<String>, now: Moment) -> (res: (Vec<String>, String))
        ensures
            joins(self.dir@, log_name_of(now), res.1@),
            exists|list: Seq<Seq<char>>| #[trigger]
                stale(list, texts(names@), self.count as int) && list.len() == res.0@.len() && (
                forall|i: int|
                    0 <= i < list.len() ==> joins(
                        self.dir@,
                        #[trigger] list[i],
                        res.0@[i]@,
                    )),
    {
        let ghost all = texts(names@);
        let list = stale_logs(names, self.count);
        let ghost gone = texts(list@);
        let mut paths: Vec<String> = Vec::new();
        let mut i: usize = 0;
        while i < list.len()
            invariant
                i <= list@.len(),
                gone == texts(list@),
                paths@.len() == i,
                forall|j: int|
                    0 <= j < i ==> joins(self.dir@, #[trigger] gone[j], paths@[j]@),
            decreases list@.len() - i,
        {
            let ghost done = paths@;
            let path = join(self.dir.as_str(), list[i].as_str());
            paths.push(path);
            assert forall|j: int| 0 <= j < i + 1 implies joins(
                self.dir@,
                #[trigger] gone[j],
                paths@[j]@,
            ) by {
                if j < i {
                    assert(paths@[j] == done[j]);
                }
            }
            i += 1;
        }
        assert(stale(gone, all, self.count as int));
        let path = join(self.dir.as_str(), log_name(now).as_str());
        (paths, path)
    }
}

/// Whether a failure to write a log is told, so long after the last one was.
pub fn may_report(elapsed_nanos: u64) -> (yes: bool)
    ensures
        yes == (elapsed_nanos > QUIET_NANOS),
{
    elapsed_nanos > QUIET_NANOS
}

/// The log for what concerns a device, or no device.
pub fn writer_for(dir: &str, serial: Option<String>) -> (writer: RollingWriter)
    ensures
        writer.count == KEPT_FILES,
        match serial {
            Some(serial) => if serial@.len() == 0 {
                writer.dir@ == dir@ && writer.cutoff == COMMON_CUTOFF
            } else {
                joins(dir@, serial@, writer.dir@) && writer.cutoff == DEVICE_CUTOFF
            },
            None => writer.dir@ == dir@ && writer.cutoff == COMMON_CUTOFF,
        },
{
    match serial {
        Some(serial) => if serial.as_str().is_empty() {
            RollingWriter::new(dir.to_owned(), COMMON_CUTOFF, KEPT_FILES)
        } else {
            RollingWriter::new(join(dir, serial.as_str()), DEVICE_CUTOFF, KEPT_FILES)
        },
        None => RollingWriter::new(dir.to_owned(), COMMON_CUTOFF, KEPT_FILES),
    }
}

/// The serial number that what is logged mentions.
#[derive(Debug, PartialEq, Eq)]
pub struct DeviceSerial {
    pub serial: Option<String>,
}

impl DeviceSerial {
    /// None so far.
    pub fn new() -> (serial: DeviceSerial)
        ensures
            serial.serial is None,
    {
        DeviceSerial { serial: None }
    }

    /// Takes in a field.
    pub fn record_str(&mut self, name: &str, value: &str)
        ensures
            if name@ == "serial"@ {
                final(self).serial matches Some(s) && s@ == value@
            } else {
                final(self).serial == old(self).serial
            },
    {
        if same_text(name, "serial") {
            self.serial = Some(value.to_owned());
        }
    }
}

/// The first serial number there is.
pub open spec fn first_serial(list: Seq<Option<String>>) -> Option<Seq<char>>
    decreases list.len(),
{
    if list.len() == 0 {
        None
    } else {
        match list[0] {
            Some(serial) => Some(serial@),
            None => first_serial(list.skip(1)),
        }
    }
}

/// The device that an event belongs to: the one that it mentions itself, or
/// the one that the outermost of the spans around it mentions.
pub fn event_serial(own: Option<String>, spans: &Vec<Option<String>>) -> (serial: Option<String>)
    ensures
        match own {
            Some(own) => serial matches Some(s) && s@ == own@,
            None => match serial {
                Some(s) => first_serial(spans@) == Some(s@),
                None => first_serial(spans@) is None,
            },
        },
{
    if own.is_some() {
        return own;
    }
    let mut i: usize = 0;
    assert(spans@.skip(0) =~= spans@);
    while i < spans.len()
        invariant
            own is None,
            i <= spans@.len(),
            first_serial(spans@) == first_serial(spans@.skip(i as int)),
        decreases spans@.len() - i,
    {
        assert(spans@.skip(i as int).skip(1) =~= spans@.skip(i + 1));
        if let Some(serial) = &spans[i] {
            return Some(serial.clone());
        }
        i += 1;
    }
    None
}

/// Where the log of connections is written, if it is.
pub fn transport_log<'a>(config: &'a Config, wanted: bool) -> (dir: Option<&'a str>)
    ensures
        match dir {
            Some(dir) => wanted && (config.transport_log matches Some(log) && log@ == dir@),
            None => !wanted || config.transport_log is None,
        },
{
    if !wanted {
        return None;
    }
    match &config.transport_log {
        Some(log) => Some(log.as_str()),
        None => None,
    }
}

proof fn lemma_place_two(n: u32)
    requires
        n < 100,
    ensures
        place(n, 2) == seq![digit(n as int / 10), digit(n as int % 10)],
{
    reveal_with_fuel(digits, 3);
    reveal_with_fuel(zero_padded, 3);
    assert(place(n, 2) =~= seq![digit(n as int / 10), digit(n as int % 10)]);
}

proof fn lemma_place_four(n: u32)
    requires
        n < 10000,
    ensures
        place(n, 4) == place(n / 100, 2) + place(n % 100, 2),
{
    reveal_with_fuel(digits, 5);
    reveal_with_fuel(zero_padded, 5);
    lemma_place_two(n / 100);
    lemma_place_two(n % 100);
    assert(n as int / 10 / 10 == n as int / 100);
    assert(n as int / 10 % 10 == n as int % 100 / 10);
    assert(place(n, 4) =~= place(n / 100, 2) + place(n % 100, 2));
}

proof fn lemma_before_in_front(p: Seq<char>, q: Seq<char>, x: Seq<char>, y: Seq<char>)
    requires
        p.len() == q.len(),
    ensures
        before(p, q) ==> before(p + x, q + y),
        p == q ==> before(p + x, q + y) == before(x, y),
    decreases p.len(),
{
    if p.len() > 0 {
        lemma_before_in_front(p.skip(1), q.skip(1), x, y);
        assert((p + x).skip(1) =~= p.skip(1) + x);
        assert((q + y).skip(1) =~= q.skip(1) + y);
    } else {
        assert(p + x =~= x);
        assert(q + y =~= y);
    }
}

proof fn lemma_two_digits_follow(a: u32, b: u32)
    requires
        a < 100,
        b < 100,
    ensures
        place(a, 2).len() == place(b, 2).len(),
        a < b ==> before(place(a, 2), place(b, 2)),
{
    lemma_place_two(a);
    lemma_place_two(b);
    if a < b {
        let x = place(a, 2);
        let y = place(b, 2);
        assert(x.skip(1)[0] == x[1]);
        assert(y.skip(1)[0] == y[1]);
        reveal_with_fuel(before, 3);
    }
}

proof fn lemma_four_digits_follow(a: u32, b: u32)
    requires
        a < 10000,
        b < 10000,
    ensures
        place(a, 4).len() == place(b, 4).len(),
        a < b ==> before(place(a, 4), place(b, 4)),
{
    lemma_place_four(a);
    lemma_place_four(b);
    lemma_two_digits_follow(a / 100, b / 100);
    lemma_two_digits_follow(a % 100, b % 100);
    lemma_before_in_front(
        place(a / 100, 2),
        place(b / 100, 2),
        place(a % 100, 2),
        place(b % 100, 2),
    );
}

proof fn lemma_regroup(a: Seq<char>, b: Seq<char>, c: Seq<char>)
    ensures
        a + b + c == a + (b + c),
{
    assert(a + b + c =~= a + (b + c));
}

/// The parts of the name of a log file from the minute on, from the hour on,
/// and so on.
spec fn from_second(m: Moment) -> Seq<char> {
    "_"@ + (place(m.second, 2) + LOG_SUFFIX@)
}

spec fn from_minute(m: Moment) -> Seq<char> {
    "_"@ + (place(m.minute, 2) + from_second(m))
}

spec fn from_hour(m: Moment) -> Seq<char> {
    "__"@ + (place(m.hour, 2) + from_minute(m))
}

spec fn from_day(m: Moment) -> Seq<char> {
    "_"@ + (place(m.day, 2) + from_hour(m))
}

spec fn from_month(m: Moment) -> Seq<char> {
    "_"@ + (place(m.month, 2) + from_day(m))
}

proof fn lemma_name_from_the_year(m: Moment)
    ensures
        log_name_of(m) == place(m.year, 4) + from_month(m),
{
    let to_month = place(m.year, 4) + "_"@ + place(m.month, 2);
    let to_day = to_month + "_"@ + place(m.day, 2);
    let to_hour = to_day + "__"@ + place(m.hour, 2);
    let to_minute = to_hour + "_"@ + place(m.minute, 2);
    lemma_regroup(to_minute + "_"@, place(m.second, 2), LOG_SUFFIX@);
    lemma_regroup(to_minute, "_"@, place(m.second, 2) + LOG_SUFFIX@);
    lemma_regroup(to_hour + "_"@, place(m.minute, 2), from_second(m));
    lemma_regroup(to_hour, "_"@, place(m.minute, 2) + from_second(m));
    lemma_regroup(to_day + "__"@, place(m.hour, 2), from_minute(m));
    lemma_regroup(to_day, "__"@, place(m.hour, 2) + from_minute(m));
    lemma_regroup(to_month + "_"@, place(m.day, 2), from_hour(m));
    lemma_regroup(to_month, "_"@, place(m.day, 2) + from_hour(m));
    lemma_regroup(place(m.year, 4) + "_"@, place(m.month, 2), from_day(m));
    lemma_regroup(place(m.year, 4), "_"@, place(m.month, 2) + from_day(m));
}

proof fn lemma_part_follows(sep: Seq<char>, a: u32, b: u32, x: Seq<char>, y: Seq<char>)
    requires
        a < 100,
        b < 100,
        a < b || a == b && before(x, y),
    ensures
        before(sep + (place(a, 2) + x), sep + (place(b, 2) + y)),
{
    lemma_two_digits_follow(a, b);
    lemma_before_in_front(place(a, 2), place(b, 2), x, y);
    lemma_before_in_front(sep, sep, place(a, 2) + x, place(b, 2) + y);
}

/// Log files are named so that the later one is the later one in the order of
/// texts.
pub proof fn law_names_follow_time(a: Moment, b: Moment)
    requires
        a.wf(),
        b.wf(),
        a.earlier(b),
    ensures
        before(log_name_of(a), log_name_of(b)),
{
    lemma_name_from_the_year(a);
    lemma_name_from_the_year(b);
    lemma_four_digits_follow(a.year, b.year);
    lemma_before_in_front(place(a.year, 4), place(b.year, 4), from_month(a), from_month(b));
    if a.year == b.year {
        if a.month == b.month {
            if a.day == b.day {
                if a.hour == b.hour {
                    if a.minute == b.minute {
                        lemma_part_follows("_"@, a.second, b.second, LOG_SUFFIX@, LOG_SUFFIX@);
                    }
                    lemma_part_follows(
                        "_"@,
                        a.minute,
                        b.minute,
                        from_second(a),
                        from_second(b),
                    );
                }
                lemma_part_follows("__"@, a.hour, b.hour, from_minute(a), from_minute(b));
            }
            lemma_part_follows("_"@, a.day, b.day, from_hour(a), from_hour(b));
        }
        lemma_part_follows("_"@, a.month, b.month, from_day(a), from_day(b));
    }
}

/// Of the log files, the newest are kept: none that is removed is newer than
/// one that is kept.
pub proof fn law_newest_logs_are_kept(
    sorted: Seq<Seq<char>>,
    names: Seq<Seq<char>>,
    count: int,
    kept: int,
    removed: int,
)
    requires
        newest_first(sorted, names),
        0 <= kept < count,
        kept < sorted.len(),
        0 <= removed < all_but(sorted, count).len(),
    ensures
        !before(sorted[kept], all_but(sorted, count)[removed]),
{
    assert(all_but(sorted, count)[removed] == sorted[count + removed]);
}

/// Only log files that are there are removed, and as many of them as there are
/// beyond `count`.
pub proof fn law_only_surplus_logs_are_removed(
    list: Seq<Seq<char>>,
    names: Seq<Seq<char>>,
    count: int,
)
    requires
        count >= 0,
        stale(list, names, count),
    ensures
        forall|i: int|
            0 <= i < list.len() ==> has_suffix(#[trigger] list[i], LOG_SUFFIX@) && names.contains(
                list[i],
            ),
        log_names(names).len() - list.len() == if log_names(names).len() < count {
            log_names(names).len() as int
        } else {
            count
        },
{
    broadcast use vstd::seq_lib::group_to_multiset_ensures;

    let is_log = |name: Seq<char>| has_suffix(name, LOG_SUFFIX@);
    let logs = log_names(names);
    let sorted = choose|sorted: Seq<Seq<char>>| #[trigger]
        newest_first(sorted, names) && list == all_but(sorted, count);
    assert(sorted.len() == sorted.to_multiset().len());
    assert(logs.len() == logs.to_multiset().len());
    assert forall|i: int| 0 <= i < list.len() implies has_suffix(#[trigger] list[i], LOG_SUFFIX@)
        && names.contains(list[i]) by {
        let name = list[i];
        assert(sorted[count + i] == name);
        assert(sorted.contains(name));
        assert(sorted.to_multiset().count(name) > 0);
        assert(logs.contains(name));
        let j = choose|j: int| 0 <= j < logs.len() && logs[j] == name;
        names.lemma_filter_pred(is_log, j);
        names.lemma_filter_contains_rev(is_log, name);
    }
}

/// To remove the surplus leaves every other file alone: none of the paths that
/// are removed is that of a plain name that is not to be removed.
pub proof fn law_other_files_stay(
    dir: Seq<char>,
    list: Seq<Seq<char>>,
    paths: Seq<Seq<char>>,
    name: Seq<char>,
    path: Seq<char>,
)
    requires
        !is_verbatim(dir),
        list.len() == paths.len(),
        forall|i: int|
            0 <= i < list.len() ==> plain_name(#[trigger] list[i]) && joins(
                dir,
                list[i],
                paths[i],
            ),
        plain_name(name),
        joins(dir, name, path),
        !list.contains(name),
    ensures
        !paths.contains(path),
{
    if paths.contains(path) {
        let i = choose|i: int| 0 <= i < paths.len() && paths[i] == path;
        law_paths_tell_names_apart(dir, list[i], name, path);
        assert(list.contains(list[i]));
    }
}

/// Whether the character is in the text nowhere.
spec fn lacks(s: Seq<char>, c: char) -> bool {
    forall|i: int| 0 <= i < s.len() ==> s[i] != c
}

proof fn lemma_place_lacks(n: u32, width: int, c: char)
    requires
        digit_value(c, 10) < 0,
    ensures
        lacks(place(n, width), c),
        place(n, width).len() > 0,
{
    lemma_digits_read_back(n as int, 10);
    lemma_padding_keeps_value(digits(n as int, 10), width, 10);
    let s = place(n, width);
    assert forall|i: int| 0 <= i < s.len() implies s[i] != c by {
        assert(digit_value(s[i], 10) >= 0);
    }
}

proof fn lemma_log_name_lacks(m: Moment, c: char)
    requires
        c == '/' || c == '\\' || c == ':',
    ensures
        lacks(log_name_of(m), c),
        log_name_of(m).len() > 0,
{
    reveal_strlit("_");
    reveal_strlit("__");
    reveal_strlit(".log");
    lemma_place_lacks(m.year, 4, c);
    lemma_place_lacks(m.month, 2, c);
    lemma_place_lacks(m.day, 2, c);
    lemma_place_lacks(m.hour, 2, c);
    lemma_place_lacks(m.minute, 2, c);
    lemma_place_lacks(m.second, 2, c);
}

/// The name of a log file stands in its directory on every machine.
pub proof fn law_log_names_are_plain(m: Moment)
    ensures
        plain_name(log_name_of(m)),
{
    lemma_log_name_lacks(m, '/');
    lemma_log_name_lacks(m, '\\');
    lemma_log_name_lacks(m, ':');
}

/// Texts are in the order of the first characters in which they differ, and what
/// a text starts with comes before it.
pub proof fn law_texts_are_in_the_order_of_their_characters(
    common: Seq<char>,
    a: char,
    b: char,
    x: Seq<char>,
    y: Seq<char>,
)
    ensures
        a < b ==> before(common + seq![a] + x, common + seq![b] + y),
        before(common, common + seq![a] + x),
        !before(common, common),
        !before(common + seq![a] + x, common),
        a < b ==> !before(common + seq![b] + y, common + seq![a] + x),
{
    let p = seq![a] + x;
    let q = seq![b] + y;
    let none: Seq<char> = seq![];
    assert(common + seq![a] + x =~= common + p);
    assert(common + seq![b] + y =~= common + q);
    assert(common + none =~= common);
    lemma_before_in_front(common, common, p, q);
    lemma_before_in_front(common, common, q, p);
    lemma_before_in_front(common, common, none, p);
    lemma_before_in_front(common, common, none, none);
    lemma_before_in_front(common, common, p, none);
}

proof fn lemma_last_place(n: u32)
    requires
        n < 100,
    ensures
        place(n, 2).len() == 2,
        place(n, 2)[0] as int == 48 + n / 10,
        place(n, 2)[1] as int == 48 + n % 10,
{
    lemma_place_two(n);
}

/// Whether the two characters from `at` on are the two digits of the number.
pub open spec fn two_digits_at(s: Seq<char>, at: int, n: int) -> bool {
    s[at] as int == 48 + n / 10 && s[at + 1] as int == 48 + n % 10
}

proof fn lemma_piece(a: Seq<char>, b: Seq<char>, c: Seq<char>)
    ensures
        (a + b + c).len() == a.len() + b.len() + c.len(),
        forall|i: int| 0 <= i < a.len() ==> (#[trigger] (a + b + c)[i]) == a[i],
        forall|i: int|
            a.len() <= i < a.len() + b.len() ==> (#[trigger] (a + b + c)[i]) == b[i - a.len()],
        forall|i: int|
            a.len() + b.len() <= i < a.len() + b.len() + c.len() ==> (#[trigger] (a + b + c)[i])
                == c[i - a.len() - b.len()],
{
}

/// The name of a log file tells the moment, each number with all of its digits in
/// its place, and ends as log files do.
pub proof fn law_names_tell_the_moment(m: Moment, name: String)
    requires
        m.wf(),
        call_ensures(log_name, (m,), name),
    ensures
        name@.len() == 24,
        two_digits_at(name@, 0, m.year as int / 100),
        two_digits_at(name@, 2, m.year as int % 100),
        name@[4] == '_',
        two_digits_at(name@, 5, m.month as int),
        name@[7] == '_',
        two_digits_at(name@, 8, m.day as int),
        name@[10] == '_',
        name@[11] == '_',
        two_digits_at(name@, 12, m.hour as int),
        name@[14] == '_',
        two_digits_at(name@, 15, m.minute as int),
        name@[17] == '_',
        two_digits_at(name@, 18, m.second as int),
        name@.skip(20) == ".log"@,
{
    reveal_strlit("_");
    reveal_strlit("__");
    reveal_strlit(".log");
    lemma_place_four(m.year);
    lemma_last_place(m.year / 100);
    lemma_last_place(m.year % 100);
    lemma_last_place(m.month);
    lemma_last_place(m.day);
    lemma_last_place(m.hour);
    lemma_last_place(m.minute);
    lemma_last_place(m.second);
    let a = place(m.year, 4);
    assert(a[0] == place(m.year / 100, 2)[0]);
    assert(a[1] == place(m.year / 100, 2)[1]);
    assert(a[2] == place(m.year % 100, 2)[0]);
    assert(a[3] == place(m.year % 100, 2)[1]);
    let b = a + "_"@ + place(m.month, 2);
    let c = b + "_"@ + place(m.day, 2);
    let d = c + "__"@ + place(m.hour, 2);
    let e = d + "_"@ + place(m.minute, 2);
    let f = e + "_"@ + place(m.second, 2);
    assert(name@ == f + ".log"@);
    lemma_piece(a, "_"@, place(m.month, 2));
    lemma_piece(b, "_"@, place(m.day, 2));
    lemma_piece(c, "__"@, place(m.hour, 2));
    lemma_piece(d, "_"@, place(m.minute, 2));
    lemma_piece(e, "_"@, place(m.second, 2));
    assert(forall|i: int| 0 <= i < f.len() ==> #[trigger] name@[i] == f[i]);
    assert(name@.skip(20) =~= ".log"@);
}

proof fn lemma_stale_length(list: Seq<Seq<char>>, names: Seq<Seq<char>>, count: int)
    requires
        count >= 0,
        stale(list, names, count),
    ensures
        list.len() == if log_names(names).len() > count {
            log_names(names).len() - count
        } else {
            0
        },
{
    law_only_surplus_logs_are_removed(list, names, count);
}

/// A file that is no log file is never removed and changes nothing about how many
/// are; each log file more, once there are enough, is one more to remove.
pub proof fn law_each_log_counts_once(
    names: Vec<String>,
    more: Vec<String>,
    name: String,
    count: u32,
    list: Vec<String>,
    longer: Vec<String>,
)
    requires
        more@ == names@.push(name),
        call_ensures(stale_logs, (names, count), list),
        call_ensures(stale_logs, (more, count), longer),
    ensures
        !has_suffix(name@, ".log"@) ==> longer@.len() == list@.len() && forall|i: int|
            0 <= i < longer@.len() ==> (#[trigger] longer@[i])@ != name@,
        has_suffix(name@, ".log"@) ==> longer@.len() == list@.len() + 1 || longer@.len() == 0,
        has_suffix(name@, ".log"@) && list@.len() > 0 ==> longer@.len() == list@.len() + 1,
        names@.len() <= count ==> list@.len() == 0,
{
    let all = texts(names@);
    let is_log = |name: Seq<char>| has_suffix(name, LOG_SUFFIX@);
    assert(texts(more@) =~= all.push(name@));
    all.lemma_filter_push(name@, is_log);
    assert(log_names(texts(more@)) == if is_log(name@) {
        log_names(all).push(name@)
    } else {
        log_names(all)
    });
    lemma_stale_length(texts(list@), all, count as int);
    lemma_stale_length(texts(longer@), texts(more@), count as int);
    law_only_surplus_logs_are_removed(texts(longer@), texts(more@), count as int);
    assert forall|i: int|
        0 <= i < longer@.len() && !has_suffix(name@, ".log"@) implies (#[trigger] longer@[i])@
        != name@ by {
        assert(texts(longer@)[i] == longer@[i]@);
    }
    lemma_filtered_is_no_longer(all);
}

proof fn lemma_filtered_is_no_longer(names: Seq<Seq<char>>)
    ensures
        log_names(names).len() <= names.len(),
    decreases names.len(),
{
    reveal(Seq::filter);
    if names.len() > 0 {
        lemma_filtered_is_no_longer(names.drop_last());
    }
}

/// What is removed are log files of the directory, the newer ones first, and each
/// comes before every log file that stays.
pub proof fn law_only_the_oldest_logs_are_removed(
    names: Vec<String>,
    count: u32,
    list: Vec<String>,
    kept: Seq<char>,
    i: int,
    j: int,
)
    requires
        call_ensures(stale_logs, (names, count), list),
        0 <= i < list@.len(),
        texts(names@).contains(kept),
        has_suffix(kept, ".log"@),
        !texts(list@).contains(kept),
    ensures
        has_suffix(list@[i]@, ".log"@),
        texts(names@).contains(list@[i]@),
        before(list@[i]@, kept),
        i < j < list@.len() ==> !before(list@[i]@, list@[j]@),
{
    broadcast use vstd::seq_lib::group_to_multiset_ensures;

    let all = texts(names@);
    let gone = texts(list@);
    let is_log = |name: Seq<char>| has_suffix(name, LOG_SUFFIX@);
    assert(gone[i] == list@[i]@);
    law_only_surplus_logs_are_removed(gone, all, count as int);
    let sorted = choose|sorted: Seq<Seq<char>>| #[trigger]
        newest_first(sorted, all) && gone == all_but(sorted, count as int);
    let logs = log_names(all);
    let k = choose|k: int| 0 <= k < all.len() && all[k] == kept;
    all.lemma_filter_contains(is_log, k);
    assert(logs.contains(kept));
    assert(logs.to_multiset().count(kept) > 0);
    assert(sorted.contains(kept));
    let h = choose|h: int| 0 <= h < sorted.len() && sorted[h] == kept;
    if h >= count {
        assert(gone[h - count] == kept);
    }
    assert(gone[i] == sorted[count + i]);
    assert(!before(sorted[h], sorted[count + i]));
    lemma_before_total(kept, gone[i]);
    assert(gone.contains(gone[i]));
    if i < j < list@.len() {
        assert(gone[j] == list@[j]@);
        assert(gone[j] == sorted[count + j]);
    }
}

/// Whether the path is where one of the names leads from the directory.
pub open spec fn is_file_of(dir: Seq<char>, names: Seq<Seq<char>>, path: Seq<char>) -> bool {
    exists|name: Seq<char>| names.contains(name) && #[trigger] joins(dir, name, path)
}

/// A new file is started where there is none and where the one there is has grown
/// beyond the size; it stands in the directory of the log under the name of the
/// moment, and as many files are removed as are too many, each a log file there.
pub proof fn law_a_new_log_makes_room(
    dir: String,
    cutoff: u64,
    count: u32,
    writer: RollingWriter,
    position: u64,
    full: bool,
    none: bool,
    names: Vec<String>,
    now: Moment,
    res: (Vec<String>, String),
    name: String,
    list: Vec<String>,
)
    requires
        call_ensures(RollingWriter::new, (dir, cutoff, count), writer),
        call_ensures(RollingWriter::must_roll, (&writer, Some(position)), full),
        call_ensures(RollingWriter::must_roll, (&writer, None), none),
        call_ensures(RollingWriter::roll, (&writer, names, now), res),
        call_ensures(log_name, (now,), name),
        call_ensures(stale_logs, (names, count), list),
    ensures
        none,
        full <==> position > cutoff,
        joins(dir@, name@, res.1@),
        !is_verbatim(dir@) ==> has_suffix(res.1@, ".log"@),
        res.0@.len() == list@.len(),
        !is_verbatim(dir@) ==> forall|i: int|
            0 <= i < res.0@.len() ==> has_suffix((#[trigger] res.0@[i])@, ".log"@),
        forall|i: int|
            0 <= i < res.0@.len() ==> is_file_of(dir@, texts(names@), (#[trigger] res.0@[i])@),
{
    let all = texts(names@);
    let gone = choose|gone: Seq<Seq<char>>| #[trigger]
        stale(gone, all, count as int) && gone.len() == res.0@.len() && (forall|i: int|
            0 <= i < gone.len() ==> joins(dir@, #[trigger] gone[i], res.0@[i]@));
    lemma_stale_length(gone, all, count as int);
    lemma_stale_length(texts(list@), all, count as int);
    law_only_surplus_logs_are_removed(gone, all, count as int);
    reveal_strlit(".log");
    lemma_log_suffix(now);
    if !is_verbatim(dir@) {
        lemma_suffix_of_suffix(res.1@, name@, ".log"@);
    }
    assert forall|i: int| 0 <= i < res.0@.len() implies is_file_of(
        dir@,
        all,
        (#[trigger] res.0@[i])@,
    ) by {
        assert(all.contains(gone[i]) && joins(dir@, gone[i], res.0@[i]@));
    }
    assert forall|i: int| 0 <= i < res.0@.len() && !is_verbatim(dir@) implies has_suffix(
        (#[trigger] res.0@[i])@,
        ".log"@,
    ) by {
        assert(joins(dir@, gone[i], res.0@[i]@));
        lemma_suffix_of_suffix(res.0@[i]@, gone[i], ".log"@);
    }
}

proof fn lemma_suffix_of_suffix(s: Seq<char>, part: Seq<char>, end: Seq<char>)
    requires
        has_suffix(s, part),
        has_suffix(part, end),
    ensures
        has_suffix(s, end),
{
    assert(s.skip(s.len() - end.len()) =~= part.skip(part.len() - end.len()));
}

proof fn lemma_log_suffix(m: Moment)
    ensures
        has_suffix(log_name_of(m), ".log"@),
{
    let front = place(m.year, 4) + "_"@ + place(m.month, 2) + "_"@ + place(m.day, 2) + "__"@
        + place(m.hour, 2) + "_"@ + place(m.minute, 2) + "_"@ + place(m.second, 2);
    assert(log_name_of(m) == front + LOG_SUFFIX@);
    assert((front + LOG_SUFFIX@).skip(front.len() as int) =~= LOG_SUFFIX@);
}

/// What concerns a device is logged in a directory of its own, in larger files;
/// what concerns none, in the directory itself. Five old files are kept.
pub proof fn law_each_device_has_its_log(
    dir: &str,
    serial: String,
    own: RollingWriter,
    common: RollingWriter,
)
    requires
        call_ensures(writer_for, (dir, Some(serial)), own),
        call_ensures(writer_for, (dir, None), common),
    ensures
        common.dir@ == dir@,
        common.cutoff == 10 * 1024 * 1024,
        own.count == 5,
        common.count == 5,
        serial@.len() == 0 ==> own.dir@ == dir@ && own.cutoff == common.cutoff,
        serial@.len() > 0 ==> joins(dir@, serial@, own.dir@) && own.cutoff == 2 * common.cutoff,
{
}

/// A field counts where it is named `serial`, and the last one that is counts.
pub proof fn law_the_last_serial_number_counts(
    fields: &mut DeviceSerial,
    name: &str,
    value: &str,
    more: &mut DeviceSerial,
    other: &str,
    text: &str,
)
    requires
        call_ensures(DeviceSerial::record_str, (fields, name, value), ()),
        *old(more) == *final(fields),
        call_ensures(DeviceSerial::record_str, (more, other, text), ()),
    ensures
        other@ == "serial"@ ==> (final(more).serial matches Some(s) && s@ == text@),
        other@ != "serial"@ && name@ == "serial"@ ==> (final(more).serial matches Some(s) && s@
            == value@),
        other@ != "serial"@ && name@ != "serial"@ ==> final(more).serial == old(fields).serial,
{
}

proof fn lemma_first_serial(list: Seq<Option<String>>)
    ensures
        match first_serial(list) {
            Some(s) => exists|i: int|
                0 <= i < list.len() && (#[trigger] list[i]) is Some && list[i]->0@ == s && forall|
                    j: int,
                |
                    0 <= j < i ==> (#[trigger] list[j]) is None,
            None => forall|j: int| 0 <= j < list.len() ==> (#[trigger] list[j]) is None,
        },
    decreases list.len(),
{
    if list.len() > 0 && list[0] is None {
        let rest = list.skip(1);
        lemma_first_serial(rest);
        match first_serial(rest) {
            Some(s) => {
                let i = choose|i: int|
                    0 <= i < rest.len() && (#[trigger] rest[i]) is Some && rest[i]->0@ == s
                        && forall|j: int| 0 <= j < i ==> (#[trigger] rest[j]) is None;
                assert(list[i + 1] == rest[i]);
                assert forall|j: int| 0 <= j < i + 1 implies (#[trigger] list[j]) is None by {
                    if j > 0 {
                        assert(list[j] == rest[j - 1]);
                    }
                }
            },
            None => {
                assert forall|j: int| 0 <= j < list.len() implies (#[trigger] list[j]) is None by {
                    if j > 0 {
                        assert(list[j] == rest[j - 1]);
                    }
                }
            },
        }
    }
}

/// An event belongs to the device that it mentions, else to the one that the
/// outermost span with any mentions, else to none.
pub proof fn law_events_belong_to_the_device_they_mention(
    own: String,
    spans: &Vec<Option<String>>,
    first: Option<String>,
    second: Option<String>,
)
    requires
        call_ensures(event_serial, (Some(own), spans), first),
        call_ensures(event_serial, (None, spans), second),
    ensures
        first matches Some(s) && s@ == own@,
        match second {
            Some(s) => exists|i: int|
                0 <= i < spans@.len() && (#[trigger] spans@[i]) is Some && spans@[i]->0@ == s@
                    && forall|j: int| 0 <= j < i ==> (#[trigger] spans@[j]) is None,
            None => forall|j: int| 0 <= j < spans@.len() ==> (#[trigger] spans@[j]) is None,
        },
{
    lemma_first_serial(spans@);
}

/// Connections are logged where that is wanted and configured, and there.
/// Failures to write a log are told at most once a minute.
pub proof fn law_logging_is_asked_for(
    config: &Config,
    wanted: bool,
    dir: Option<&str>,
    nanos: u64,
    told: bool,
)
    requires
        call_ensures(transport_log, (config, wanted), dir),
        call_ensures(may_report, (nanos,), told),
    ensures
        dir is Some <==> wanted && config.transport_log is Some,
        dir matches Some(d) ==> (config.transport_log matches Some(log) && log@ == d@),
        told <==> nanos > 60 * 1_000_000_000,
{
}

} // verus!
