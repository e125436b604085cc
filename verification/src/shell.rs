//! Shell commands run from the prompt: which prompt a command came from, the
//! quit command, spotting programs that take over the terminal screen in the
//! captured output, the working-directory marker that ends the output, and
//! the text of the output panel.
use vstd::prelude::*;

use crate::paths::{same_path, same_path_spec};
use crate::text::{
    chars_of, decimal, push_chars, push_decimal, push_str, same_as, string_of, trim, trim_end,
    trimmed, last_solid_before, space,
};

verus! {

// ------------------------------------------------------------------ prompts

/// `:` commands may change Waddle's folder; `!` commands may not.
#[derive(Clone, Copy, Debug, PartialEq, Eq, Structural)]
pub enum CommandMode {
    Bash,
    PolarExp,
}

impl CommandMode {
    pub fn from_prefix(prefix: &str) -> (r: Self)
        ensures
            r == (if prefix@ == ":"@ {
                CommandMode::PolarExp
            } else {
                CommandMode::Bash
            }),
    {
        let p = chars_of(prefix);
        if same_as(p.as_slice(), ":") {
            CommandMode::PolarExp
        } else {
            CommandMode::Bash
        }
    }

    pub fn applies_directory_change(self) -> (r: bool)
        ensures
            r == (self == CommandMode::PolarExp),
    {
        match self {
            CommandMode::PolarExp => true,
            CommandMode::Bash => false,
        }
    }
}

/// `:q`, with any surrounding whitespace, quits; `!q` runs a program named q.
pub fn is_quit_command(mode: CommandMode, command: &str) -> (r: bool)
    ensures
        r == (mode == CommandMode::PolarExp && trim(command@) == "q"@),
{
    let c = chars_of(command);
    let t = trimmed(c.as_slice());
    mode.applies_directory_change() && same_as(t.as_slice(), "q")
}

// ------------------------------------------------------------------ byte patterns

/// `pattern` occurs in `bytes` starting at index `i`.
pub open spec fn bytes_at(bytes: Seq<u8>, pattern: Seq<u8>, i: int) -> bool {
    0 <= i && i + pattern.len() <= bytes.len() && bytes.subrange(i, i + pattern.len()) == pattern
}

/// Some window of `bytes` equals `pattern`.
pub open spec fn contains_bytes(bytes: Seq<u8>, pattern: Seq<u8>) -> bool {
    exists|i: int| bytes_at(bytes, pattern, i)
}

/// One of `patterns` occurs in `bytes`.
pub open spec fn contains_any(bytes: Seq<u8>, patterns: Seq<Seq<u8>>) -> bool {
    exists|k: int| 0 <= k < patterns.len() && contains_bytes(bytes, #[trigger] patterns[k])
}

fn matches_bytes_at(bytes: &[u8], pattern: &[u8], i: usize) -> (r: bool)
    requires
        i + pattern@.len() <= bytes@.len(),
    ensures
        r == bytes_at(bytes@, pattern@, i as int),
{
    let n = bytes.len();
    let mut j: usize = 0;
    while j < pattern.len()
        invariant
            n == bytes@.len(),
            j <= pattern@.len(),
            i + pattern@.len() <= bytes@.len(),
            forall|k: int| 0 <= k < j ==> bytes@[i + k] == pattern@[k],
        decreases pattern@.len() - j,
    {
        if bytes[i + j] != pattern[j] {
            assert(bytes@.subrange(i as int, i + pattern@.len())[j as int] != pattern@[j as int]);
            return false;
        }
        j = j + 1;
    }
    assert(bytes@.subrange(i as int, i + pattern@.len()) =~= pattern@);
    true
}

/// Whether `sequence` occurs in `bytes`. An empty sequence is refused, as
/// `slice::windows` refuses a window of no bytes.
pub fn contains_sequence(bytes: &[u8], sequence: &[u8]) -> (r: bool)
    requires
        sequence@.len() > 0,
    ensures
        r == contains_bytes(bytes@, sequence@),
{
    if sequence.len() > bytes.len() {
        return false;
    }
    let last = bytes.len() - sequence.len();
    let mut i: usize = 0;
    while i < last
        invariant
            last + sequence@.len() == bytes@.len(),
            i <= last,
            forall|k: int| 0 <= k < i ==> !bytes_at(bytes@, sequence@, k),
        decreases last - i,
    {
        if matches_bytes_at(bytes, sequence, i) {
            return true;
        }
        i = i + 1;
    }
    if matches_bytes_at(bytes, sequence, last) {
        return true;
    }
    assert forall|k: int| !bytes_at(bytes@, sequence@, k) by {
        if 0 <= k && k < i {
        }
    }
    false
}

/// Whether one of `sequences` occurs in `bytes`; each sequence has a byte.
pub fn contains_any_sequence(bytes: &[u8], sequences: &[Vec<u8>]) -> (r: bool)
    requires
        forall|k: int| 0 <= k < sequences@.len() ==> (#[trigger] sequences@[k])@.len() > 0,
    ensures
        r == contains_any(bytes@, sequences@.map_values(|v: Vec<u8>| v@)),
{
    let ghost ps = sequences@.map_values(|v: Vec<u8>| v@);
    let mut k: usize = 0;
    while k < sequences.len()
        invariant
            k <= sequences@.len(),
            ps == sequences@.map_values(|v: Vec<u8>| v@),
            forall|j: int| 0 <= j < sequences@.len() ==> (#[trigger] sequences@[j])@.len() > 0,
            forall|j: int| 0 <= j < k ==> !contains_bytes(bytes@, #[trigger] ps[j]),
        decreases sequences@.len() - k,
    {
        if contains_sequence(bytes, sequences[k].as_slice()) {
            assert(ps[k as int] == sequences@[k as int]@);
            return true;
        }
        k = k + 1;
    }
    false
}

/// `ESC [ ? 1049 h`, `ESC [ ? 1047 h`, `ESC [ ? 47 h`: switches to the
/// alternate screen.
pub open spec fn alternate_screen() -> Seq<Seq<u8>> {
    seq![
        seq![0x1bu8, 0x5b, 0x3f, 0x31, 0x30, 0x34, 0x39, 0x68],
        seq![0x1bu8, 0x5b, 0x3f, 0x31, 0x30, 0x34, 0x37, 0x68],
        seq![0x1bu8, 0x5b, 0x3f, 0x34, 0x37, 0x68],
    ]
}

/// `ESC [ ? 25 l`: hides the cursor.
pub open spec fn cursor_hide() -> Seq<u8> {
    seq![0x1bu8, 0x5b, 0x3f, 0x32, 0x35, 0x6c]
}

/// `ESC [ J` and `ESC [ 0..3 J`: erases the display.
pub open spec fn erase_display() -> Seq<Seq<u8>> {
    seq![
        seq![0x1bu8, 0x5b, 0x4a],
        seq![0x1bu8, 0x5b, 0x30, 0x4a],
        seq![0x1bu8, 0x5b, 0x31, 0x4a],
        seq![0x1bu8, 0x5b, 0x32, 0x4a],
        seq![0x1bu8, 0x5b, 0x33, 0x4a],
    ]
}

/// The longest screen-control sequence watched for.
pub const MAX_SCREEN_CONTROL_SEQUENCE_LEN: usize = 8;

fn byte_vec(bytes: &[u8]) -> (r: Vec<u8>)
    ensures
        r@ == bytes@,
{
    let mut r: Vec<u8> = Vec::new();
    let mut i: usize = 0;
    while i < bytes.len()
        invariant
            i <= bytes@.len(),
            r@ == bytes@.take(i as int),
        decreases bytes@.len() - i,
    {
        r.push(bytes[i]);
        i = i + 1;
        assert(r@ =~= bytes@.take(i as int));
    }
    assert(bytes@.take(i as int) =~= bytes@);
    r
}

fn alternate_screen_sequences() -> (r: Vec<Vec<u8>>)
    ensures
        r@.map_values(|v: Vec<u8>| v@) == alternate_screen(),
        forall|k: int| 0 <= k < r@.len() ==> (#[trigger] r@[k])@.len() > 0,
{
    let a = byte_vec(&[0x1bu8, 0x5b, 0x3f, 0x31, 0x30, 0x34, 0x39, 0x68]);
    let b = byte_vec(&[0x1bu8, 0x5b, 0x3f, 0x31, 0x30, 0x34, 0x37, 0x68]);
    let c = byte_vec(&[0x1bu8, 0x5b, 0x3f, 0x34, 0x37, 0x68]);
    assert(a@ =~= alternate_screen()[0]);
    assert(b@ =~= alternate_screen()[1]);
    assert(c@ =~= alternate_screen()[2]);
    let r = vec![a, b, c];
    assert(r@.map_values(|v: Vec<u8>| v@) =~= alternate_screen());
    r
}

fn erase_display_sequences() -> (r: Vec<Vec<u8>>)
    ensures
        r@.map_values(|v: Vec<u8>| v@) == erase_display(),
        forall|k: int| 0 <= k < r@.len() ==> (#[trigger] r@[k])@.len() > 0,
{
    let a = byte_vec(&[0x1bu8, 0x5b, 0x4a]);
    let b = byte_vec(&[0x1bu8, 0x5b, 0x30, 0x4a]);
    let c = byte_vec(&[0x1bu8, 0x5b, 0x31, 0x4a]);
    let d = byte_vec(&[0x1bu8, 0x5b, 0x32, 0x4a]);
    let e = byte_vec(&[0x1bu8, 0x5b, 0x33, 0x4a]);
    assert(a@ =~= erase_display()[0]);
    assert(b@ =~= erase_display()[1]);
    assert(c@ =~= erase_display()[2]);
    assert(d@ =~= erase_display()[3]);
    assert(e@ =~= erase_display()[4]);
    let r = vec![a, b, c, d, e];
    assert(r@.map_values(|v: Vec<u8>| v@) =~= erase_display());
    r
}

fn cursor_hide_sequence() -> (r: Vec<u8>)
    ensures
        r@ == cursor_hide(),
{
    let r = byte_vec(&[0x1bu8, 0x5b, 0x3f, 0x32, 0x35, 0x6c]);
    assert(r@ =~= cursor_hide());
    r
}

// ------------------------------------------------------------------ screen detector

/// What the detector carries between chunks of output: the last few bytes
/// (a sequence may be split across chunks) and whether the cursor was hidden.
pub struct DetectorView {
    pub cursor_hidden: bool,
    pub tail: Seq<u8>,
}

/// The bytes kept between chunks: the last seven of what was scanned, one
/// fewer than the longest sequence watched for.
pub open spec fn keep_tail(scan: Seq<u8>) -> Seq<u8> {
    if scan.len() > 7 {
        scan.skip(scan.len() - 7)
    } else {
        scan
    }
}

/// One chunk through the detector: a switch to the alternate screen, or an
/// erased display once the cursor has been hidden, means the command wants
/// an interactive terminal. On such a report the carried bytes are dropped.
pub open spec fn observe_spec(d: DetectorView, bytes: Seq<u8>) -> (bool, DetectorView) {
    let scan = d.tail + bytes;
    if contains_any(scan, alternate_screen()) {
        (true, DetectorView { cursor_hidden: d.cursor_hidden, tail: Seq::empty() })
    } else {
        let hidden = d.cursor_hidden || contains_bytes(scan, cursor_hide());
        if hidden && contains_any(scan, erase_display()) {
            (true, DetectorView { cursor_hidden: hidden, tail: Seq::empty() })
        } else {
            (false, DetectorView { cursor_hidden: hidden, tail: keep_tail(scan) })
        }
    }
}

/// Watches a command's output for programs that take over the terminal.
pub struct ScreenControlDetector {
    cursor_hidden: bool,
    tail: Vec<u8>,
}

impl View for ScreenControlDetector {
    type V = DetectorView;

    closed spec fn view(&self) -> DetectorView {
        DetectorView { cursor_hidden: self.cursor_hidden, tail: self.tail@ }
    }
}

impl ScreenControlDetector {
    #[verifier::type_invariant]
    spec fn short_tail(self) -> bool {
        self.tail@.len() <= 7
    }

    pub fn new() -> (r: Self)
        ensures
            r@ == (DetectorView { cursor_hidden: false, tail: Seq::empty() }),
    {
        ScreenControlDetector { cursor_hidden: false, tail: Vec::new() }
    }

    /// Scans one chunk of output together with the bytes carried from the
    /// previous chunk; true when the command takes over the screen.
    pub fn observe(&mut self, bytes: &[u8]) -> (r: bool)
        ensures
            (r, final(self)@) == observe_spec(old(self)@, bytes@),
            final(self)@.tail.len() <= 7,
    {
        proof {
            use_type_invariant(&*self);
        }
        let mut scan: Vec<u8> = Vec::new();
        std::mem::swap(&mut scan, &mut self.tail);
        let mut i: usize = 0;
        let ghost start = scan@;
        while i < bytes.len()
            invariant
                i <= bytes@.len(),
                scan@ == start + bytes@.take(i as int),
            decreases bytes@.len() - i,
        {
            scan.push(bytes[i]);
            i = i + 1;
            assert(scan@ =~= start + bytes@.take(i as int));
        }
        assert(bytes@.take(i as int) =~= bytes@);
        let alternate = alternate_screen_sequences();
        if contains_any_sequence(scan.as_slice(), alternate.as_slice()) {
            return true;
        }
        let hide = cursor_hide_sequence();
        if contains_sequence(scan.as_slice(), hide.as_slice()) {
            self.cursor_hidden = true;
        }
        let erase = erase_display_sequences();
        if self.cursor_hidden && contains_any_sequence(scan.as_slice(), erase.as_slice()) {
            return true;
        }
        let n = scan.len();
        let tail_start: usize = if n > 7 {
            n - 7
        } else {
            0
        };
        let mut tail: Vec<u8> = Vec::new();
        let mut j: usize = tail_start;
        while j < n
            invariant
                n == scan@.len(),
                tail_start <= j <= n,
                tail_start == (if n > 7 {
                    n - 7
                } else {
                    0
                }),
                tail@ == scan@.subrange(tail_start as int, j as int),
            decreases n - j,
        {
            tail.push(scan[j]);
            j = j + 1;
            assert(tail@ =~= scan@.subrange(tail_start as int, j as int));
        }
        assert(tail@ =~= keep_tail(scan@));
        self.tail = tail;
        false
    }
}

impl Default for ScreenControlDetector {
    fn default() -> (r: Self)
        ensures
            r@ == (DetectorView { cursor_hidden: false, tail: Seq::empty() }),
    {
        ScreenControlDetector::new()
    }
}

/// A pattern of one to eight bytes occurs in the stream so far exactly when
/// it occurred before this chunk or occurs in the carried tail followed by
/// the chunk: keeping seven bytes between chunks loses no split sequence.
pub proof fn lemma_tail_keeps_split_sequences(history: Seq<u8>, chunk: Seq<u8>, pattern: Seq<u8>)
    requires
        1 <= pattern.len() <= MAX_SCREEN_CONTROL_SEQUENCE_LEN,
    ensures
        contains_bytes(history + chunk, pattern) <==> (contains_bytes(history, pattern)
            || contains_bytes(keep_tail(history) + chunk, pattern)),
{
    let hc = history + chunk;
    let t = keep_tail(history);
    let tc = t + chunk;
    let off: int = history.len() - t.len();
    let l = pattern.len() as int;
    assert(tc =~= hc.skip(off));
    if contains_bytes(hc, pattern) {
        let i = choose|i: int| bytes_at(hc, pattern, i);
        if i + l <= history.len() {
            assert(hc.subrange(i, i + l) =~= history.subrange(i, i + l));
            assert(bytes_at(history, pattern, i));
        } else {
            assert(tc.subrange(i - off, i - off + l) =~= hc.subrange(i, i + l));
            assert(bytes_at(tc, pattern, i - off));
        }
    }
    if contains_bytes(history, pattern) {
        let i = choose|i: int| bytes_at(history, pattern, i);
        assert(hc.subrange(i, i + l) =~= history.subrange(i, i + l));
        assert(bytes_at(hc, pattern, i));
    }
    if contains_bytes(tc, pattern) {
        let i = choose|i: int| bytes_at(tc, pattern, i);
        assert(hc.subrange(i + off, i + off + l) =~= tc.subrange(i, i + l));
        assert(bytes_at(hc, pattern, i + off));
    }
}

/// The tail kept after a chunk is the tail of the whole stream.
pub proof fn lemma_tail_of_stream(history: Seq<u8>, chunk: Seq<u8>)
    ensures
        keep_tail(keep_tail(history) + chunk) == keep_tail(history + chunk),
{
    let t = keep_tail(history);
    if history.len() > 7 {
        assert((t + chunk).skip((t + chunk).len() - 7) =~= (history + chunk).skip(
            (history + chunk).len() - 7,
        ));
    }
    if history.len() <= 7 {
        assert(t == history);
    }
}

proof fn lemma_any_split(history: Seq<u8>, chunk: Seq<u8>, patterns: Seq<Seq<u8>>)
    requires
        forall|k: int|
            0 <= k < patterns.len() ==> 1 <= (#[trigger] patterns[k]).len()
                <= MAX_SCREEN_CONTROL_SEQUENCE_LEN,
    ensures
        contains_any(history + chunk, patterns) <==> (contains_any(history, patterns)
            || contains_any(keep_tail(history) + chunk, patterns)),
{
    assert forall|k: int| 0 <= k < patterns.len() implies (contains_bytes(
        history + chunk,
        #[trigger] patterns[k],
    ) <==> (contains_bytes(history, patterns[k]) || contains_bytes(
        keep_tail(history) + chunk,
        patterns[k],
    ))) by {
        lemma_tail_keeps_split_sequences(history, chunk, patterns[k]);
    }
}

/// However the output is cut into chunks, until the detector reports a
/// take-over it carries the last seven bytes of the whole stream and knows
/// the cursor is hidden exactly when the stream so far hides it; and a switch
/// to the alternate screen anywhere in the stream is reported by the chunk
/// that completes it.
pub proof fn lemma_detector_follows_stream(d: DetectorView, history: Seq<u8>, chunk: Seq<u8>)
    requires
        d.tail == keep_tail(history),
        d.cursor_hidden == contains_bytes(history, cursor_hide()),
        !contains_any(history, alternate_screen()),
    ensures
        contains_any(history + chunk, alternate_screen()) ==> observe_spec(d, chunk).0,
        !observe_spec(d, chunk).0 ==> {
            &&& observe_spec(d, chunk).1.tail == keep_tail(history + chunk)
            &&& observe_spec(d, chunk).1.cursor_hidden == contains_bytes(
                history + chunk,
                cursor_hide(),
            )
            &&& !contains_any(history + chunk, alternate_screen())
        },
{
    lemma_any_split(history, chunk, alternate_screen());
    lemma_tail_keeps_split_sequences(history, chunk, cursor_hide());
    lemma_tail_of_stream(history, chunk);
}

// ------------------------------------------------------------------ final directory

/// The marker that the wrapper script prints, with the shell's final
/// working directory after it: `NUL POLAREXP_PWD NUL`.
pub open spec fn pwd_marker() -> Seq<u8> {
    seq![0x00u8, 0x50, 0x4f, 0x4c, 0x41, 0x52, 0x45, 0x58, 0x50, 0x5f, 0x50, 0x57, 0x44, 0x00]
}

fn pwd_marker_bytes() -> (r: Vec<u8>)
    ensures
        r@ == pwd_marker(),
{
    let r = byte_vec(
        &[0x00u8, 0x50, 0x4f, 0x4c, 0x41, 0x52, 0x45, 0x58, 0x50, 0x5f, 0x50, 0x57, 0x44, 0x00],
    );
    assert(r@ =~= pwd_marker());
    r
}

/// The last index below `j` at which `pattern` occurs in `bytes`.
pub open spec fn last_occurrence(bytes: Seq<u8>, pattern: Seq<u8>, j: int) -> Option<int>
    decreases j,
{
    if j <= 0 {
        None
    } else if bytes_at(bytes, pattern, j - 1) {
        Some(j - 1)
    } else {
        last_occurrence(bytes, pattern, j - 1)
    }
}

/// The first zero byte at or after `i`.
pub open spec fn first_zero_from(bytes: Seq<u8>, i: int) -> Option<int>
    decreases bytes.len() - i,
{
    if i < 0 || i >= bytes.len() {
        None
    } else if bytes[i] == 0 {
        Some(i)
    } else {
        first_zero_from(bytes, i + 1)
    }
}

proof fn lemma_first_zero_bounds(bytes: Seq<u8>, i: int)
    requires
        0 <= i,
    ensures
        first_zero_from(bytes, i) matches Some(e) ==> i <= e < bytes.len() && bytes[e] == 0,
    decreases bytes.len() - i,
{
    if i < bytes.len() && bytes[i] != 0 {
        lemma_first_zero_bounds(bytes, i + 1);
    }
}

proof fn lemma_last_occurrence_bounds(bytes: Seq<u8>, pattern: Seq<u8>, j: int)
    ensures
        last_occurrence(bytes, pattern, j) matches Some(m) ==> 0 <= m < j && bytes_at(
            bytes,
            pattern,
            m,
        ),
    decreases j,
{
    if j > 0 && !bytes_at(bytes, pattern, j - 1) {
        lemma_last_occurrence_bounds(bytes, pattern, j - 1);
    }
}

/// Splitting the captured output at the last marker: the directory between
/// the marker and the next zero byte, and the output before the marker.
/// Without a marker, or without a zero byte after it, nothing is taken.
pub open spec fn final_directory_spec(stdout: Seq<u8>) -> (Option<Seq<u8>>, Seq<u8>) {
    match last_occurrence(stdout, pwd_marker(), stdout.len() as int) {
        None => (None, stdout),
        Some(m) => match first_zero_from(stdout, m + pwd_marker().len()) {
            None => (None, stdout),
            Some(e) => (Some(stdout.subrange(m + pwd_marker().len(), e)), stdout.take(m)),
        },
    }
}

/// Takes the final working directory, as bytes, off the end of a command's
/// standard output.
pub fn take_final_directory(stdout: &mut Vec<u8>) -> (r: Option<Vec<u8>>)
    ensures
        (match r {
            Some(p) => Some(p@),
            None => None,
        }, final(stdout)@) == final_directory_spec(old(stdout)@),
{
    let marker = pwd_marker_bytes();
    let mlen = marker.len();
    let n = stdout.len();
    let mut j: usize = n;
    let ghost s = stdout@;
    let mut found: Option<usize> = None;
    while j > 0
        invariant_except_break
            found is None,
            last_occurrence(s, pwd_marker(), n as int) == last_occurrence(s, pwd_marker(), j as int),
        invariant
            n == s.len(),
            s == stdout@,
            marker@ == pwd_marker(),
            mlen == marker@.len(),
            j <= n,
        ensures
            found matches Some(m) ==> last_occurrence(s, pwd_marker(), n as int) == Some(m as int),
            found is None ==> last_occurrence(s, pwd_marker(), n as int) is None,
        decreases j,
    {
        if mlen <= n && j - 1 <= n - mlen && matches_bytes_at(
            stdout.as_slice(),
            marker.as_slice(),
            j - 1,
        ) {
            found = Some(j - 1);
            break;
        }
        j = j - 1;
    }
    let m = match found {
        Some(m) => m,
        None => {
            return None;
        },
    };
    proof {
        lemma_last_occurrence_bounds(s, pwd_marker(), n as int);
    }
    let path_start = m + marker.len();
    let mut e: usize = path_start;
    while e < n && stdout[e] != 0
        invariant
            n == s.len(),
            s == stdout@,
            path_start <= e <= n,
            first_zero_from(s, path_start as int) == first_zero_from(s, e as int),
        decreases n - e,
    {
        e = e + 1;
    }
    if e == n {
        return None;
    }
    let mut path: Vec<u8> = Vec::new();
    let mut k: usize = path_start;
    while k < e
        invariant
            n == s.len(),
            s == stdout@,
            path_start <= k <= e < n,
            path@ == s.subrange(path_start as int, k as int),
        decreases e - k,
    {
        path.push(stdout[k]);
        k = k + 1;
        assert(path@ =~= s.subrange(path_start as int, k as int));
    }
    stdout.truncate(m);
    assert(stdout@ =~= s.take(m as int));
    Some(path)
}

// ------------------------------------------------------------------ output text

/// The most output shown, in bytes of UTF-8.
pub const OUTPUT_LIMIT: usize = 131072;

/// The number of bytes UTF-8 spends on a character.
pub open spec fn utf8_width(c: char) -> nat {
    let u = c as u32;
    if u < 0x80 {
        1
    } else if u < 0x800 {
        2
    } else if u < 0x10000 {
        3
    } else {
        4
    }
}

/// The UTF-8 length of a text (`str::len`).
pub open spec fn utf8_len(s: Seq<char>) -> nat
    decreases s.len(),
{
    if s.len() == 0 {
        0
    } else {
        utf8_len(s.drop_last()) + utf8_width(s.last())
    }
}

proof fn lemma_utf8_len_grows(s: Seq<char>, k: int)
    requires
        0 <= k <= s.len(),
    ensures
        utf8_len(s.take(k)) <= utf8_len(s),
    decreases s.len() - k,
{
    if k < s.len() {
        lemma_utf8_len_grows(s, k + 1);
        assert(s.take(k + 1).drop_last() =~= s.take(k));
    } else {
        assert(s.take(k) =~= s);
    }
}

/// The number of leading characters that fit in `limit` bytes of UTF-8:
/// the last character boundary at or below `limit`.
pub open spec fn fitting_chars(s: Seq<char>, limit: nat) -> nat
    decreases s.len(),
{
    if utf8_len(s) <= limit {
        s.len()
    } else {
        fitting_chars(s.drop_last(), limit)
    }
}

pub open spec fn truncation_note() -> Seq<char> {
    "\n\n\u{2026} output truncated at 128 KiB"@
}

/// Output over the limit is cut at the last character boundary within it,
/// and a note says so.
pub open spec fn truncated_spec(s: Seq<char>) -> Seq<char> {
    if utf8_len(s) <= OUTPUT_LIMIT {
        s
    } else {
        s.take(fitting_chars(s, OUTPUT_LIMIT as nat) as int) + truncation_note()
    }
}

fn utf8_width_of(c: char) -> (r: usize)
    ensures
        r == utf8_width(c),
{
    let u = c as u32;
    if u < 0x80 {
        1
    } else if u < 0x800 {
        2
    } else if u < 0x10000 {
        3
    } else {
        4
    }
}

proof fn lemma_fitting_prefix(s: Seq<char>, k: int, limit: nat)
    requires
        0 <= k < s.len(),
        utf8_len(s.take(k)) <= limit,
        utf8_len(s.take(k + 1)) > limit,
    ensures
        fitting_chars(s, limit) == k,
    decreases s.len(),
{
    lemma_utf8_len_grows(s, k + 1);
    if s.len() == k + 1 {
        assert(s.drop_last() =~= s.take(k));
        assert(fitting_chars(s.drop_last(), limit) == k);
    } else {
        assert(s.drop_last().take(k) =~= s.take(k));
        assert(s.drop_last().take(k + 1) =~= s.take(k + 1));
        lemma_fitting_prefix(s.drop_last(), k, limit);
    }
}

/// Cuts the output panel's text at 128 KiB of UTF-8, at a character
/// boundary, and says so at the end.
pub fn truncate_output(output: &mut String)
    ensures
        final(output)@ == truncated_spec(old(output)@),
{
    let chars = chars_of(output.as_str());
    let ghost s = chars@;
    let n = chars.len();
    let mut i: usize = 0;
    let mut total: usize = 0;
    while i < n && total + utf8_width_of(chars[i]) <= OUTPUT_LIMIT
        invariant
            n == s.len(),
            s == chars@,
            i <= n,
            total == utf8_len(s.take(i as int)),
            total <= OUTPUT_LIMIT,
        decreases n - i,
    {
        assert(s.take(i + 1).drop_last() =~= s.take(i as int));
        total = total + utf8_width_of(chars[i]);
        i = i + 1;
    }
    if i == n {
        assert(s.take(i as int) =~= s);
        return;
    }
    assert(s.take(i + 1).drop_last() =~= s.take(i as int));
    proof {
        lemma_utf8_len_grows(s, i + 1);
        lemma_fitting_prefix(s, i as int, OUTPUT_LIMIT as nat);
    }
    let mut kept: Vec<char> = Vec::new();
    let mut k: usize = 0;
    while k < i
        invariant
            i < n,
            n == s.len(),
            s == chars@,
            k <= i,
            kept@ == s.take(k as int),
        decreases i - k,
    {
        kept.push(chars[k]);
        k = k + 1;
        assert(kept@ =~= s.take(k as int));
    }
    push_str(&mut kept, "\n\n\u{2026} output truncated at 128 KiB");
    *output = string_of(kept.as_slice());
}

/// What `String::from_utf8_lossy` gives for bytes: valid UTF-8 decoded, each
/// invalid sequence replaced by U+FFFD. It depends on the bytes alone.
pub uninterp spec fn utf8_lossy(bytes: Seq<u8>) -> Seq<char>;

/// `String::from_utf8_lossy`. The contract names the decoded text
/// (`utf8_lossy`); the decoding rules are not restated.
#[verifier::external_body]
pub(crate) fn decode_lossy(bytes: &[u8]) -> (r: String)
    ensures
        r@ == utf8_lossy(bytes@),
{
    String::from_utf8_lossy(bytes).into_owned()
}

fn trimmed_end(s: &[char]) -> (r: Vec<char>)
    ensures
        r@ == trim_end(s@),
{
    let n = s.len();
    let mut end: usize = n;
    while end > 0 && space(s[end - 1])
        invariant
            n == s@.len(),
            end <= n,
            last_solid_before(s@, end as int) == last_solid_before(s@, n as int),
        decreases end,
    {
        end = end - 1;
    }
    assert(last_solid_before(s@, end as int) == end);
    let mut r: Vec<char> = Vec::new();
    let mut k: usize = 0;
    while k < end
        invariant
            end <= n,
            n == s@.len(),
            k <= end,
            r@ == s@.take(k as int),
        decreases end - k,
    {
        r.push(s[k]);
        k = k + 1;
        assert(r@ =~= s@.take(k as int));
    }
    r
}

/// Appends captured bytes, decoded leniently and without trailing
/// whitespace, to the panel text.
pub fn append_output(target: &mut Vec<char>, bytes: &[u8])
    ensures
        final(target)@ == old(target)@ + trim_end(utf8_lossy(bytes@)),
{
    let text = decode_lossy(bytes);
    let chars = chars_of(text.as_str());
    let kept = trimmed_end(chars.as_slice());
    push_chars(target, kept.as_slice());
}

/// The summary and detail of the command-output panel.
pub struct Panel {
    pub summary: String,
    pub detail: String,
}

/// A decimal integer with its sign, as `Display` prints it.
pub open spec fn signed_decimal(n: int) -> Seq<char> {
    if n < 0 {
        seq!['-'] + decimal((-n) as nat)
    } else {
        decimal(n as nat)
    }
}

/// How the command ended: its exit code, or that a signal stopped it.
pub open spec fn status_text(code: Option<i32>) -> Seq<char> {
    match code {
        Some(c) => "exit "@ + signed_decimal(c as int),
        None => "terminated by signal"@,
    }
}

/// The panel detail: standard output, then standard error under a heading
/// when both have text, a placeholder when there is none, cut to the limit.
pub open spec fn output_detail(stdout: Seq<u8>, stderr: Seq<u8>) -> Seq<char> {
    let out = trim_end(utf8_lossy(stdout));
    let with_err = if stderr.len() == 0 {
        out
    } else if out.len() == 0 {
        trim_end(utf8_lossy(stderr))
    } else {
        out + "\n\nstderr:\n"@ + trim_end(utf8_lossy(stderr))
    };
    let detail = if with_err.len() == 0 {
        "The command produced no output."@
    } else {
        with_err
    };
    truncated_spec(detail)
}

/// The command-output panel for a finished command.
pub fn show_shell_output(
    prefix: &str,
    command: &str,
    code: Option<i32>,
    stdout: &[u8],
    stderr: &[u8],
) -> (r: Panel)
    ensures
        r.summary@ == prefix@ + command@ + "  \u{2022}  "@ + status_text(code),
        r.detail@ == output_detail(stdout@, stderr@),
{
    let mut summary = chars_of(prefix);
    push_str(&mut summary, command);
    push_str(&mut summary, "  \u{2022}  ");
    match code {
        Some(c) => {
            push_str(&mut summary, "exit ");
            if c < 0 {
                summary.push('-');
                let magnitude: i64 = -(c as i64);
                push_decimal(&mut summary, magnitude as usize);
            } else {
                push_decimal(&mut summary, c as usize);
            }
        },
        None => {
            push_str(&mut summary, "terminated by signal");
        },
    }
    assert(summary@ =~= prefix@ + command@ + "  \u{2022}  "@ + status_text(code));
    let mut detail: Vec<char> = Vec::new();
    append_output(&mut detail, stdout);
    if stderr.len() > 0 {
        if detail.len() > 0 {
            push_str(&mut detail, "\n\nstderr:\n");
        }
        append_output(&mut detail, stderr);
    }
    if detail.len() == 0 {
        push_str(&mut detail, "The command produced no output.");
    }
    assert(detail@ =~= (if (if stderr@.len() == 0 {
        trim_end(utf8_lossy(stdout@))
    } else if trim_end(utf8_lossy(stdout@)).len() == 0 {
        trim_end(utf8_lossy(stderr@))
    } else {
        trim_end(utf8_lossy(stdout@)) + "\n\nstderr:\n"@ + trim_end(utf8_lossy(stderr@))
    }).len() == 0 {
        "The command produced no output."@
    } else {
        (if stderr@.len() == 0 {
            trim_end(utf8_lossy(stdout@))
        } else if trim_end(utf8_lossy(stdout@)).len() == 0 {
            trim_end(utf8_lossy(stderr@))
        } else {
            trim_end(utf8_lossy(stdout@)) + "\n\nstderr:\n"@ + trim_end(utf8_lossy(stderr@))
        })
    }));
    let mut text = string_of(detail.as_slice());
    truncate_output(&mut text);
    Panel { summary: string_of(summary.as_slice()), detail: text }
}

/// The panel for a command that was stopped because it wanted the screen.
pub fn show_terminal_required(prefix: &str, command: &str) -> (r: Panel)
    ensures
        r.summary@ == prefix@ + command@ + "  \u{2022}  interactive terminal required"@,
        r.detail@ == "This command tried to take over the terminal screen, so PolarExp stopped it."@,
{
    let mut summary = chars_of(prefix);
    push_str(&mut summary, command);
    push_str(&mut summary, "  \u{2022}  interactive terminal required");
    Panel {
        summary: string_of(summary.as_slice()),
        detail: String::from_str(
            "This command tried to take over the terminal screen, so PolarExp stopped it.",
        ),
    }
}

// ------------------------------------------------------------------ follow-up

/// What the window does once a command has finished.
#[derive(Debug, PartialEq, Eq)]
pub struct FollowUp {
    /// The folder to open, when a `:` command ended elsewhere.
    pub navigate: Option<String>,
    /// Whether the output panel opens.
    pub show_output: bool,
}

/// After a command: a `:` command that ended in another folder (another
/// path by components, so a trailing slash does not count) opens it
/// (otherwise the listing is refreshed), and the output panel opens when the
/// command failed or printed anything.
pub fn follow_up(
    mode: CommandMode,
    current: &str,
    final_directory: Option<String>,
    successful: bool,
    stdout_empty: bool,
    stderr_empty: bool,
) -> (r: FollowUp)
    ensures
        r.navigate.deep_view() == (match final_directory {
            Some(d) => if mode == CommandMode::PolarExp && !same_path_spec(d@, current@) {
                Some(d@)
            } else {
                None
            },
            None => None,
        }),
        r.show_output == (!successful || !stdout_empty || !stderr_empty),
{
    let navigate = match final_directory {
        Some(d) => {
            if mode.applies_directory_change() && !same_path(d.as_str(), current) {
                Some(d)
            } else {
                None
            }
        },
        None => None,
    };
    FollowUp { navigate, show_output: !successful || !stdout_empty || !stderr_empty }
}

} // verus!
