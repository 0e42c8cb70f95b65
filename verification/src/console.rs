use std::collections::VecDeque;
use vstd::prelude::*;

verus! {

/// Log level for console messages.
#[derive(Clone, Copy, Debug, PartialEq, Eq, Structural)]
pub enum LogLevel {
    Debug,
    Info,
    Warn,
    Error,
}

/// The label printed before a message of `level`.
pub open spec fn spec_level_label(level: LogLevel) -> Seq<char> {
    match level {
        LogLevel::Debug => "DEBUG"@,
        LogLevel::Info => "INFO"@,
        LogLevel::Warn => "WARN"@,
        LogLevel::Error => "ERROR"@,
    }
}

impl LogLevel {
    /// The color of the label, as red, green and blue: light gray, white, amber and light red.
    pub fn color_rgb(&self) -> (r: (u8, u8, u8))
        ensures
            r == match *self {
                LogLevel::Debug => (160u8, 160u8, 160u8),
                LogLevel::Info => (255u8, 255u8, 255u8),
                LogLevel::Warn => (255u8, 200u8, 0u8),
                LogLevel::Error => (255u8, 100u8, 100u8),
            },
    {
        match self {
            LogLevel::Debug => (160, 160, 160),
            LogLevel::Info => (255, 255, 255),
            LogLevel::Warn => (255, 200, 0),
            LogLevel::Error => (255, 100, 100),
        }
    }

    pub fn label(&self) -> (r: &str)
        ensures
            r@ == spec_level_label(*self),
    {
        proof {
            reveal_strlit("DEBUG");
            reveal_strlit("INFO");
            reveal_strlit("WARN");
            reveal_strlit("ERROR");
        }
        match self {
            LogLevel::Debug => "DEBUG",
            LogLevel::Info => "INFO",
            LogLevel::Warn => "WARN",
            LogLevel::Error => "ERROR",
        }
    }

    /// The text shown before a message: the label in square brackets.
    pub fn prefix(&self) -> (r: String)
        ensures
            r@ == "["@ + spec_level_label(*self) + "]"@,
    {
        let mut r = String::from_str("[");
        r.append(self.label());
        r.append("]");
        r
    }
}

/// A single log entry captured from the tracing system.
#[derive(Clone, Debug)]
pub struct LogEntry {
    pub level: LogLevel,
    pub message: String,
    pub target: String,
}

/// The history of log messages displayed in the console, oldest first.
pub struct YoleckConsoleLogHistory {
    pub logs: VecDeque<LogEntry>,
    pub max_logs: usize,
}

/// The history after `entry` is added to `logs` with a limit of `max_logs`: when the history is
/// full the oldest message is dropped first (with a limit of 0, one message is still kept).
pub open spec fn spec_add_log<T>(logs: Seq<T>, max_logs: nat, entry: T) -> Seq<T> {
    if logs.len() >= max_logs && logs.len() > 0 {
        logs.drop_first().push(entry)
    } else {
        logs.push(entry)
    }
}

/// The history after each of `entries` is added in turn.
pub open spec fn spec_add_logs<T>(logs: Seq<T>, max_logs: nat, entries: Seq<T>) -> Seq<T>
    decreases entries.len(),
{
    if entries.len() == 0 {
        logs
    } else {
        spec_add_log(spec_add_logs(logs, max_logs, entries.drop_last()), max_logs, entries.last())
    }
}

/// How many messages a history with the limit `max_logs` holds at most.
pub open spec fn capacity(max_logs: nat) -> nat {
    if max_logs == 0 {
        1
    } else {
        max_logs
    }
}

impl YoleckConsoleLogHistory {
    pub fn new(max_logs: usize) -> (r: Self)
        ensures
            r.logs@ == Seq::<LogEntry>::empty(),
            r.max_logs == max_logs,
    {
        YoleckConsoleLogHistory { logs: VecDeque::new(), max_logs }
    }

    pub fn add_log(&mut self, entry: LogEntry)
        ensures
            final(self).logs@ == spec_add_log(old(self).logs@, old(self).max_logs as nat, entry),
            final(self).max_logs == old(self).max_logs,
    {
        if self.logs.len() >= self.max_logs {
            let _ = self.logs.pop_front();
        }
        self.logs.push_back(entry);
    }

    /// Store the messages captured since the last frame, in order.
    pub fn store_log_messages(&mut self, entries: Vec<LogEntry>)
        ensures
            final(self).logs@ == spec_add_logs(old(self).logs@, old(self).max_logs as nat, entries@),
            final(self).max_logs == old(self).max_logs,
    {
        let mut rest = entries;
        let ghost all = rest@;
        let ghost start = self.logs@;
        let n = rest.len();
        let mut k: usize = 0;
        assert(all.take(0) =~= Seq::<LogEntry>::empty());
        while rest.len() > 0
            invariant
                n == all.len(),
                k + rest@.len() == n,
                rest@ == all.skip(k as int),
                self.logs@ == spec_add_logs(start, self.max_logs as nat, all.take(k as int)),
                self.max_logs == old(self).max_logs,
                start == old(self).logs@,
            decreases rest@.len(),
        {
            let e = rest.remove(0);
            assert(e == all[k as int]);
            assert(all.take(k + 1).drop_last() =~= all.take(k as int));
            assert(all.take(k + 1).last() == all[k as int]);
            self.add_log(e);
            k = k + 1;
            assert(rest@ =~= all.skip(k as int));
        }
        assert(all.take(k as int) =~= all);
    }

    pub fn clear(&mut self)
        ensures
            final(self).logs@ == Seq::<LogEntry>::empty(),
            final(self).max_logs == old(self).max_logs,
    {
        self.logs.clear();
    }

    /// The indices of the messages shown with `filters`, oldest first.
    pub fn visible_logs(&self, filters: &LogFilters) -> (r: Vec<usize>)
        ensures
            r@.len() <= self.logs@.len(),
            forall|i: int, j: int| 0 <= i < j < r@.len() ==> r@[i] < r@[j],
            forall|i: int| 0 <= i < r@.len() ==> r@[i] < self.logs@.len(),
            forall|k: int|
                0 <= k < self.logs@.len() ==> (r@.contains(k as usize) <==> spec_should_show(
                    *filters,
                    self.logs@[k].level,
                )),
    {
        let mut r: Vec<usize> = Vec::new();
        let n = self.logs.len();
        let mut i: usize = 0;
        while i < n
            invariant
                n == self.logs@.len(),
                i <= n,
                r@.len() <= i,
                forall|a: int, b: int| 0 <= a < b < r@.len() ==> r@[a] < r@[b],
                forall|a: int| 0 <= a < r@.len() ==> r@[a] < i,
                forall|k: int|
                    0 <= k < i ==> (r@.contains(k as usize) <==> spec_should_show(
                        *filters,
                        self.logs@[k].level,
                    )),
            decreases n - i,
        {
            let ghost r0 = r@;
            if filters.should_show(self.logs[i].level) {
                r.push(i);
            }
            proof {
                assert forall|k: int| 0 <= k < i + 1 implies (r@.contains(k as usize)
                    <==> spec_should_show(*filters, self.logs@[k].level)) by {
                    if r@.contains(k as usize) && k < i {
                        let j = choose|j: int| 0 <= j < r@.len() && r@[j] == k as usize;
                        if j < r0.len() {
                            assert(r0[j] == k as usize);
                        }
                    }
                    if r0.contains(k as usize) {
                        let j = choose|j: int| 0 <= j < r0.len() && r0[j] == k as usize;
                        assert(r@[j] == k as usize);
                    }
                    if k == i && spec_should_show(*filters, self.logs@[k].level) {
                        assert(r@[r@.len() - 1] == i);
                    }
                    if k == i && r@.contains(k as usize) {
                        let j = choose|j: int| 0 <= j < r@.len() && r@[j] == k as usize;
                        if j < r0.len() {
                            assert(r0[j] < i);
                        }
                    }
                }
            }
            i = i + 1;
        }
        r
    }
}

impl Default for YoleckConsoleLogHistory {
    fn default() -> (r: Self)
        ensures
            r.logs@ == Seq::<LogEntry>::empty(),
            r.max_logs == 1000,
    {
        Self::new(1000)
    }
}

/// The history keeps the latest messages: adding messages to a history that holds no more than
/// its capacity leaves the last ones of all the messages, as many as fit.
pub proof fn lemma_history_keeps_latest<T>(logs: Seq<T>, max_logs: nat, entries: Seq<T>)
    requires
        logs.len() <= capacity(max_logs),
    ensures
        ({
            let all = logs + entries;
            let kept = if all.len() <= capacity(max_logs) {
                all.len()
            } else {
                capacity(max_logs)
            };
            spec_add_logs(logs, max_logs, entries) == all.subrange(all.len() - kept, all.len() as int)
        }),
    decreases entries.len(),
{
    let all = logs + entries;
    if entries.len() == 0 {
        assert(all =~= logs);
        assert(all.subrange(0, all.len() as int) =~= all);
    } else {
        let prev = entries.drop_last();
        lemma_history_keeps_latest(logs, max_logs, prev);
        let all0 = logs + prev;
        assert(all =~= all0.push(entries.last()));
        let kept0 = if all0.len() <= capacity(max_logs) {
            all0.len()
        } else {
            capacity(max_logs)
        };
        let h = spec_add_logs(logs, max_logs, prev);
        assert(h == all0.subrange(all0.len() - kept0, all0.len() as int));
        if h.len() >= max_logs && h.len() > 0 {
            assert(h.drop_first().push(entries.last()) =~= all.subrange(
                all0.len() - kept0 + 1,
                all.len() as int,
            ));
        } else {
            assert(h.push(entries.last()) =~= all.subrange(all0.len() - kept0, all.len() as int));
        }
    }
}

/// Filters for controlling which log levels are displayed in the console.
pub struct LogFilters {
    pub show_debug: bool,
    pub show_info: bool,
    pub show_warn: bool,
    pub show_error: bool,
}

pub open spec fn spec_should_show(filters: LogFilters, level: LogLevel) -> bool {
    match level {
        LogLevel::Debug => filters.show_debug,
        LogLevel::Info => filters.show_info,
        LogLevel::Warn => filters.show_warn,
        LogLevel::Error => filters.show_error,
    }
}

impl Default for LogFilters {
    fn default() -> (r: Self)
        ensures
            !r.show_debug,
            r.show_info,
            r.show_warn,
            r.show_error,
    {
        LogFilters { show_debug: false, show_info: true, show_warn: true, show_error: true }
    }
}

impl LogFilters {
    pub fn should_show(&self, level: LogLevel) -> (r: bool)
        ensures
            r == spec_should_show(*self, level),
    {
        match level {
            LogLevel::Debug => self.show_debug,
            LogLevel::Info => self.show_info,
            LogLevel::Warn => self.show_warn,
            LogLevel::Error => self.show_error,
        }
    }
}

/// The state of the console panel.
pub struct YoleckConsoleState {
    pub log_filters: LogFilters,
}

impl Default for YoleckConsoleState {
    fn default() -> (r: Self)
        ensures
            !r.log_filters.show_debug,
            r.log_filters.show_info,
            r.log_filters.show_warn,
            r.log_filters.show_error,
    {
        YoleckConsoleState { log_filters: LogFilters::default() }
    }
}

/// The number of `c` at the start of `s`.
pub open spec fn leading_count(s: Seq<char>, c: char) -> nat
    decreases s.len(),
{
    if s.len() > 0 && s[0] == c {
        1 + leading_count(s.drop_first(), c)
    } else {
        0
    }
}

/// The number of `c` at the end of `s`.
pub open spec fn trailing_count(s: Seq<char>, c: char) -> nat
    decreases s.len(),
{
    if s.len() > 0 && s.last() == c {
        1 + trailing_count(s.drop_last(), c)
    } else {
        0
    }
}

/// `s` without the quotes at its start and at its end (a text of quotes alone becomes empty).
pub open spec fn spec_trim_quotes(s: Seq<char>) -> Seq<char> {
    let lead = leading_count(s, '"');
    if lead >= s.len() {
        Seq::empty()
    } else {
        s.subrange(lead as int, s.len() - trailing_count(s, '"'))
    }
}

proof fn lemma_leading_count(s: Seq<char>, c: char, i: int)
    requires
        0 <= i <= s.len(),
        forall|j: int| 0 <= j < i ==> s[j] == c,
        i < s.len() ==> s[i] != c,
    ensures
        leading_count(s, c) == i,
    decreases i,
{
    if i > 0 {
        lemma_leading_count(s.drop_first(), c, i - 1);
    }
}

proof fn lemma_trailing_count(s: Seq<char>, c: char, i: int)
    requires
        0 <= i <= s.len(),
        forall|j: int| s.len() - i <= j < s.len() ==> s[j] == c,
        i < s.len() ==> s[s.len() - 1 - i] != c,
    ensures
        trailing_count(s, c) == i,
    decreases i,
{
    if i > 0 {
        lemma_trailing_count(s.drop_last(), c, i - 1);
    }
}

/// The message of a log event, as its debug text shows it, without the surrounding quotes.
pub fn trim_quotes(s: &str) -> (r: String)
    ensures
        r@ == spec_trim_quotes(s@),
{
    let n = s.unicode_len();
    let mut lead: usize = 0;
    while lead < n && s.get_char(lead) == '"'
        invariant
            n == s@.len(),
            lead <= n,
            forall|j: int| 0 <= j < lead ==> s@[j] == '"',
        decreases n - lead,
    {
        lead = lead + 1;
    }
    proof {
        lemma_leading_count(s@, '"', lead as int);
    }
    if lead >= n {
        return String::new();
    }
    let mut trail: usize = 0;
    while trail < n - lead && s.get_char(n - 1 - trail) == '"'
        invariant
            n == s@.len(),
            lead < n,
            trail <= n - lead,
            forall|j: int| n - trail <= j < n ==> s@[j] == '"',
        decreases n - lead - trail,
    {
        trail = trail + 1;
    }
    proof {
        if trail == n - lead {
            assert(s@[lead as int] == '"');
            assert(false);
        }
        lemma_trailing_count(s@, '"', trail as int);
    }
    String::from_str(s.substring_char(lead, n - trail))
}

} // verus!
