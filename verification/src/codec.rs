//! The text form in which a progress cache is kept on disk.
//!
//! Each entry is one line. A line starts with `S` for a target that
//! succeeded or `F` for one that failed, then holds the number of attempts,
//! the target and, after `F`, the reason. A text is written as its length in
//! characters, a colon, and the characters themselves, so that it may hold
//! any character. Numbers are decimal, without leading zeros.
//!
//! ```text
//! S 1 5:mintA
//! F 3 5:mintB 7:timeout
//! ```

use crate::cache::CacheEntry;
use crate::cache::distinct_targets;
use crate::cache::entries_view;
use crate::cache::EntryView;
use crate::cache::ProgressCache;
use crate::number::digits;
use crate::number::is_digit;
use crate::number::is_number;
use crate::number::lemma_digits_number;
use crate::number::lemma_number_digits;
use crate::number::number_of;
use crate::number::push_number;
use crate::outcome::Outcome;
use crate::outcome::OutcomeView;
use crate::text::chars_of;
use crate::text::string_of;
use vstd::prelude::*;
use vstd::string::StringExecFns;
use vstd::string::StrSliceExecFns;

verus! {

/// The written form of a text: its length, a colon, its characters.
pub open spec fn text_code(t: Seq<char>) -> Seq<char> {
    digits(t.len()) + (seq![':'] + t)
}

/// What follows the attempts in the line of an entry.
pub open spec fn entry_tail(e: EntryView) -> Seq<char> {
    match e.outcome {
        OutcomeView::Succeeded => text_code(e.target) + seq!['\n'],
        OutcomeView::Failed(reason) => text_code(e.target) + (seq![' '] + (text_code(reason)
            + seq!['\n'])),
    }
}

/// The letter that starts the line of an entry.
pub open spec fn entry_letter(e: EntryView) -> char {
    match e.outcome {
        OutcomeView::Succeeded => 'S',
        OutcomeView::Failed(_) => 'F',
    }
}

/// The line of an entry.
pub open spec fn entry_code(e: EntryView) -> Seq<char> {
    seq![entry_letter(e), ' '] + (digits(e.attempts as nat) + (seq![' '] + entry_tail(e)))
}

/// The written form of a cache: the lines of its entries, in order.
pub open spec fn cache_code(es: Seq<EntryView>) -> Seq<char>
    decreases es.len(),
{
    if es.len() == 0 {
        Seq::empty()
    } else {
        cache_code(es.drop_last()) + entry_code(es.last())
    }
}

/// Whether `part` stands in `s` at `pos`.
pub open spec fn occurs(s: Seq<char>, pos: int, part: Seq<char>) -> bool {
    &&& 0 <= pos
    &&& pos + part.len() <= s.len()
    &&& s.subrange(pos, pos + part.len()) == part
}

/// Where the run of digits that starts at `pos` ends.
pub open spec fn run_end(s: Seq<char>, pos: int) -> int
    decreases s.len() - pos,
{
    if 0 <= pos < s.len() && is_digit(s[pos]) {
        run_end(s, pos + 1)
    } else {
        pos
    }
}

/// The number written at `pos`, and where it ends.
pub open spec fn number_at(s: Seq<char>, pos: int) -> Option<(nat, int)> {
    let end = run_end(s, pos);
    if 0 <= pos <= end <= s.len() && is_number(s.subrange(pos, end)) {
        Some((number_of(s.subrange(pos, end)), end))
    } else {
        None
    }
}

/// The text written at `pos`, and where it ends.
pub open spec fn text_at(s: Seq<char>, pos: int) -> Option<(Seq<char>, int)> {
    match number_at(s, pos) {
        None => None,
        Some((n, p)) => if p < s.len() && s[p] == ':' && p + 1 + n <= s.len() {
            Some((s.subrange(p + 1, p + 1 + n), p + 1 + n))
        } else {
            None
        },
    }
}

/// The entry whose line starts at `pos`, and where the next line starts.
pub open spec fn entry_at(s: Seq<char>, pos: int) -> Option<(EntryView, int)> {
    if !(0 <= pos && pos + 2 <= s.len()) {
        None
    } else if !(s[pos] == 'S' || s[pos] == 'F') || s[pos + 1] != ' ' {
        None
    } else {
        match number_at(s, pos + 2) {
            None => None,
            Some((attempts, p)) => if attempts > 255 || !(p < s.len() && s[p] == ' ') {
                None
            } else {
                match text_at(s, p + 1) {
                    None => None,
                    Some((target, q)) => if s[pos] == 'S' {
                        if q < s.len() && s[q] == '\n' {
                            Some(
                                (
                                    EntryView {
                                        target,
                                        outcome: OutcomeView::Succeeded,
                                        attempts: attempts as u8,
                                    },
                                    q + 1,
                                ),
                            )
                        } else {
                            None
                        }
                    } else if !(q < s.len() && s[q] == ' ') {
                        None
                    } else {
                        match text_at(s, q + 1) {
                            None => None,
                            Some((reason, r)) => if r < s.len() && s[r] == '\n' {
                                Some(
                                    (
                                        EntryView {
                                            target,
                                            outcome: OutcomeView::Failed(reason),
                                            attempts: attempts as u8,
                                        },
                                        r + 1,
                                    ),
                                )
                            } else {
                                None
                            },
                        }
                    },
                }
            },
        }
    }
}

/// The entries whose lines fill `s` from `pos` to its end.
pub open spec fn entries_at(s: Seq<char>, pos: int) -> Option<Seq<EntryView>>
    decreases s.len() - pos,
{
    if pos >= s.len() {
        Some(Seq::empty())
    } else {
        match entry_at(s, pos) {
            None => None,
            Some((e, next)) => if next <= pos {
                None
            } else {
                match entries_at(s, next) {
                    None => None,
                    Some(rest) => Some(seq![e] + rest),
                }
            },
        }
    }
}

/// A part stands where the two halves of it stand one after the other.
pub proof fn lemma_occurs_add(s: Seq<char>, pos: int, a: Seq<char>, b: Seq<char>)
    ensures
        occurs(s, pos, a + b) <==> occurs(s, pos, a) && occurs(s, pos + a.len(), b),
{
    if occurs(s, pos, a + b) {
        assert(s.subrange(pos, pos + a.len()) =~= (a + b).subrange(0, a.len() as int));
        assert((a + b).subrange(0, a.len() as int) =~= a);
        assert(s.subrange(pos + a.len(), pos + a.len() + b.len()) =~= (a + b).subrange(
            a.len() as int,
            (a + b).len() as int,
        ));
        assert((a + b).subrange(a.len() as int, (a + b).len() as int) =~= b);
    }
    if occurs(s, pos, a) && occurs(s, pos + a.len(), b) {
        assert(s.subrange(pos, pos + (a + b).len()) =~= s.subrange(pos, pos + a.len())
            + s.subrange(pos + a.len(), pos + a.len() + b.len()));
    }
}

/// A single character stands where the text has it.
pub proof fn lemma_occurs_one(s: Seq<char>, pos: int, c: char)
    ensures
        occurs(s, pos, seq![c]) <==> 0 <= pos < s.len() && s[pos] == c,
{
    if occurs(s, pos, seq![c]) {
        assert(s.subrange(pos, pos + 1)[0] == c);
    }
    if 0 <= pos < s.len() && s[pos] == c {
        assert(s.subrange(pos, pos + 1) =~= seq![c]);
    }
}

/// A run of digits that starts at `pos` and is all digits up to `end` ends
/// where the run from `end` ends.
pub proof fn lemma_run_end(s: Seq<char>, pos: int, end: int)
    requires
        0 <= pos <= end <= s.len(),
        forall|i: int| pos <= i < end ==> is_digit(#[trigger] s[i]),
    ensures
        run_end(s, pos) == run_end(s, end),
    decreases end - pos,
{
    if pos < end {
        lemma_run_end(s, pos + 1, end);
    }
}

/// Where the run of digits from `pos` ends: within the text, after digits
/// only, and before a character that is no digit.
pub proof fn lemma_run_end_bounds(s: Seq<char>, pos: int)
    requires
        0 <= pos <= s.len(),
    ensures
        pos <= run_end(s, pos) <= s.len(),
        forall|i: int| pos <= i < run_end(s, pos) ==> is_digit(#[trigger] s[i]),
        run_end(s, pos) < s.len() ==> !is_digit(s[run_end(s, pos)]),
    decreases s.len() - pos,
{
    if pos < s.len() && is_digit(s[pos]) {
        lemma_run_end_bounds(s, pos + 1);
    }
}

/// A number that stands at `pos`, and is not followed by a digit, is the
/// number read at `pos`.
pub proof fn lemma_number_at_code(s: Seq<char>, pos: int, n: nat)
    requires
        occurs(s, pos, digits(n)),
        pos + digits(n).len() < s.len() ==> !is_digit(s[pos + digits(n).len()]),
    ensures
        number_at(s, pos) == Some((n, pos + digits(n).len())),
{
    let end = pos + digits(n).len();
    lemma_digits_number(n);
    assert forall|i: int| pos <= i < end implies is_digit(#[trigger] s[i]) by {
        assert(s[i] == s.subrange(pos, end)[i - pos]);
    }
    lemma_run_end(s, pos, end);
}

/// The number read at `pos` stands there in its decimal form, and no digit
/// follows it.
pub proof fn lemma_number_at_sound(s: Seq<char>, pos: int)
    requires
        number_at(s, pos) is Some,
    ensures
        ({
            let (n, end) = number_at(s, pos)->0;
            &&& pos < end <= s.len()
            &&& occurs(s, pos, digits(n))
            &&& end == pos + digits(n).len()
            &&& end < s.len() ==> !is_digit(s[end])
        }),
{
    let end = run_end(s, pos);
    lemma_run_end_bounds(s, pos);
    lemma_number_digits(s.subrange(pos, end));
}

/// A text that stands at `pos` in its written form is the text read at `pos`.
pub proof fn lemma_text_at_code(s: Seq<char>, pos: int, t: Seq<char>)
    requires
        occurs(s, pos, text_code(t)),
    ensures
        text_at(s, pos) == Some((t, pos + text_code(t).len())),
{
    let d = digits(t.len());
    let p = pos + d.len();
    lemma_occurs_add(s, pos, d, seq![':'] + t);
    lemma_occurs_add(s, p, seq![':'], t);
    lemma_occurs_one(s, p, ':');
    lemma_number_at_code(s, pos, t.len());
}

/// The text read at `pos` stands there in its written form.
pub proof fn lemma_text_at_sound(s: Seq<char>, pos: int)
    requires
        text_at(s, pos) is Some,
    ensures
        ({
            let (t, end) = text_at(s, pos)->0;
            &&& pos < end <= s.len()
            &&& occurs(s, pos, text_code(t))
            &&& end == pos + text_code(t).len()
        }),
{
    let (n, p) = number_at(s, pos)->0;
    let (t, end) = text_at(s, pos)->0;
    lemma_number_at_sound(s, pos);
    lemma_occurs_one(s, p, ':');
    lemma_occurs_add(s, p, seq![':'], t);
    lemma_occurs_add(s, pos, digits(n), seq![':'] + t);
}

/// An entry whose line stands at `pos` is the entry read at `pos`.
pub proof fn lemma_entry_at_code(s: Seq<char>, pos: int, e: EntryView)
    requires
        occurs(s, pos, entry_code(e)),
    ensures
        entry_at(s, pos) == Some((e, pos + entry_code(e).len())),
{
    let head = seq![entry_letter(e), ' '];
    let d = digits(e.attempts as nat);
    let tail = entry_tail(e);
    let p = pos + 2 + d.len();
    lemma_occurs_add(s, pos, head, d + (seq![' '] + tail));
    lemma_occurs_add(s, pos + 2, d, seq![' '] + tail);
    lemma_occurs_add(s, p, seq![' '], tail);
    lemma_occurs_one(s, p, ' ');
    lemma_number_at_code(s, pos + 2, e.attempts as nat);
    let tc = text_code(e.target);
    let q = p + 1 + tc.len();
    match e.outcome {
        OutcomeView::Succeeded => {
            lemma_occurs_add(s, p + 1, tc, seq!['\n']);
            lemma_occurs_one(s, q, '\n');
            lemma_text_at_code(s, p + 1, e.target);
        },
        OutcomeView::Failed(reason) => {
            let rc = text_code(reason);
            lemma_occurs_add(s, p + 1, tc, seq![' '] + (rc + seq!['\n']));
            lemma_occurs_add(s, q, seq![' '], rc + seq!['\n']);
            lemma_occurs_one(s, q, ' ');
            lemma_occurs_add(s, q + 1, rc, seq!['\n']);
            lemma_occurs_one(s, q + 1 + rc.len(), '\n');
            lemma_text_at_code(s, p + 1, e.target);
            lemma_text_at_code(s, q + 1, reason);
        },
    }
}

/// The entry read at `pos` stands there as its line, and the next line
/// starts after it.
pub proof fn lemma_entry_at_sound(s: Seq<char>, pos: int)
    requires
        entry_at(s, pos) is Some,
    ensures
        ({
            let (e, next) = entry_at(s, pos)->0;
            &&& pos < next <= s.len()
            &&& occurs(s, pos, entry_code(e))
            &&& next == pos + entry_code(e).len()
        }),
{
    let (e, next) = entry_at(s, pos)->0;
    let (attempts, p) = number_at(s, pos + 2)->0;
    let (target, q) = text_at(s, p + 1)->0;
    let head = seq![entry_letter(e), ' '];
    let d = digits(e.attempts as nat);
    let tail = entry_tail(e);
    let tc = text_code(e.target);
    lemma_number_at_sound(s, pos + 2);
    lemma_text_at_sound(s, p + 1);
    assert(occurs(s, pos, head)) by {
        assert(s.subrange(pos, pos + 2) =~= head);
    }
    lemma_occurs_one(s, p, ' ');
    match e.outcome {
        OutcomeView::Succeeded => {
            lemma_occurs_one(s, q, '\n');
            lemma_occurs_add(s, p + 1, tc, seq!['\n']);
        },
        OutcomeView::Failed(reason) => {
            let (_, end) = text_at(s, q + 1)->0;
            let rc = text_code(reason);
            lemma_text_at_sound(s, q + 1);
            lemma_occurs_one(s, q, ' ');
            lemma_occurs_one(s, end, '\n');
            lemma_occurs_add(s, q + 1, rc, seq!['\n']);
            lemma_occurs_add(s, q, seq![' '], rc + seq!['\n']);
            lemma_occurs_add(s, p + 1, tc, seq![' '] + (rc + seq!['\n']));
        },
    }
    lemma_occurs_add(s, p, seq![' '], tail);
    lemma_occurs_add(s, pos + 2, d, seq![' '] + tail);
    lemma_occurs_add(s, pos, head, d + (seq![' '] + tail));
}

/// The written form of a cache starts with the line of its first entry.
pub proof fn lemma_cache_code_first(es: Seq<EntryView>)
    requires
        es.len() > 0,
    ensures
        cache_code(es) == entry_code(es[0]) + cache_code(es.drop_first()),
    decreases es.len(),
{
    if es.len() == 1 {
        assert(es.drop_last() =~= Seq::<EntryView>::empty());
        assert(es.drop_first() =~= Seq::<EntryView>::empty());
    } else {
        let init = es.drop_last();
        lemma_cache_code_first(init);
        assert(init.drop_first() =~= es.drop_first().drop_last());
    }
}

/// Reading the written form of a cache gives its entries back.
pub proof fn lemma_entries_at_code(s: Seq<char>, pos: int, es: Seq<EntryView>)
    requires
        0 <= pos <= s.len(),
        s.subrange(pos, s.len() as int) == cache_code(es),
    ensures
        entries_at(s, pos) == Some(es),
    decreases es.len(),
{
    if es.len() == 0 {
        assert(s.subrange(pos, s.len() as int).len() == 0);
    } else {
        lemma_cache_code_first(es);
        let line = entry_code(es[0]);
        let rest = cache_code(es.drop_first());
        lemma_occurs_add(s, pos, line, rest);
        lemma_entry_at_code(s, pos, es[0]);
        let next = pos + line.len();
        lemma_entries_at_code(s, next, es.drop_first());
    }
}

/// What was read from `pos` to the end of a text is a cache whose written
/// form stands there.
pub proof fn lemma_entries_at_sound(s: Seq<char>, pos: int)
    requires
        0 <= pos <= s.len(),
        entries_at(s, pos) is Some,
    ensures
        s.subrange(pos, s.len() as int) == cache_code(entries_at(s, pos)->0),
    decreases s.len() - pos,
{
    let es = entries_at(s, pos)->0;
    if pos < s.len() {
        let (_, next) = entry_at(s, pos)->0;
        let rest = entries_at(s, next)->0;
        lemma_entry_at_sound(s, pos);
        lemma_entries_at_sound(s, next);
        lemma_cache_code_first(es);
        assert(es.drop_first() =~= rest);
    }
}

/// Why a text is not the written form of a progress cache.
#[derive(Clone, Copy, Debug, PartialEq, Eq)]
pub enum CacheLoadError {
    /// The text is not made of well-formed lines.
    Malformed,
    /// The lines are well-formed, but two of them are for the same target.
    RepeatedTarget,
}

/// What the result of reading a cache file stands for.
pub open spec fn loaded_view(r: Result<ProgressCache, CacheLoadError>) -> Result<
    Seq<EntryView>,
    CacheLoadError,
> {
    match r {
        Ok(cache) => Ok(cache@),
        Err(e) => Err(e),
    }
}

/// What reading `text` gives: the cache that `text` is the written form of;
/// `Malformed` where it is the written form of no list of entries;
/// `RepeatedTarget` where it is the written form of entries of which two
/// have the same target.
pub open spec fn read_cache(text: Seq<char>) -> Result<Seq<EntryView>, CacheLoadError> {
    if exists|es: Seq<EntryView>| #[trigger] cache_code(es) == text {
        let es = choose|es: Seq<EntryView>| #[trigger] cache_code(es) == text;
        if distinct_targets(es) {
            Ok(es)
        } else {
            Err(CacheLoadError::RepeatedTarget)
        }
    } else {
        Err(CacheLoadError::Malformed)
    }
}

/// What loading a cache file gives: what reading its content gives, or an
/// empty cache where there is no file yet.
pub open spec fn load_spec(content: Option<Seq<char>>) -> Result<Seq<EntryView>, CacheLoadError> {
    match content {
        None => Ok(Seq::empty()),
        Some(text) => read_cache(text),
    }
}

/// What the result of reading a text stands for.
pub open spec fn range_view(s: Seq<char>, r: Option<(usize, usize)>) -> Option<(Seq<char>, int)> {
    match r {
        Some((from, to)) => Some((s.subrange(from as int, to as int), to as int)),
        None => None,
    }
}

/// What the result of reading a line stands for.
pub open spec fn line_view(r: Option<(CacheEntry, usize)>) -> Option<(EntryView, int)> {
    match r {
        Some((e, next)) => Some((e@, next as int)),
        None => None,
    }
}

/// The number read at `pos`, where it is at most `limit`.
pub open spec fn number_within(s: Seq<char>, pos: int, limit: u64) -> Option<(u64, usize)> {
    match number_at(s, pos) {
        Some((n, end)) => if n <= limit {
            Some((n as u64, end as usize))
        } else {
            None
        },
        None => None,
    }
}

/// Whether `c` is a decimal digit.
pub fn is_digit_char(c: char) -> (b: bool)
    ensures
        b == is_digit(c),
{
    '0' <= c && c <= '9'
}

/// Reads the number written at `pos`, where it is at most `limit`, and says
/// where it ends.
pub fn read_number(text: &Vec<char>, pos: usize, limit: u64) -> (r: Option<(u64, usize)>)
    requires
        pos <= text@.len(),
    ensures
        r == number_within(text@, pos as int, limit),
{
    let mut i: usize = pos;
    let mut value: u128 = 0;
    let mut over = false;
    while i < text.len() && is_digit_char(text[i])
        invariant
            pos <= i <= text@.len(),
            forall|k: int| pos <= k < i ==> is_digit(#[trigger] text@[k]),
            !over ==> value == number_of(text@.subrange(pos as int, i as int)) && value <= limit,
            over ==> number_of(text@.subrange(pos as int, i as int)) > limit,
        decreases text@.len() - i,
    {
        let d: u128 = (text[i] as u32 - 48) as u128;
        proof {
            let longer = text@.subrange(pos as int, i + 1);
            assert(longer.drop_last() =~= text@.subrange(pos as int, i as int));
        }
        if !over {
            value = value * 10 + d;
            if value > limit as u128 {
                over = true;
            }
        }
        i += 1;
    }
    proof {
        lemma_run_end(text@, pos as int, i as int);
    }
    if i == pos || (i - pos > 1 && text[pos] == '0') || over {
        None
    } else {
        Some((value as u64, i))
    }
}

/// Reads the text written at `pos`: where its characters start and end.
pub fn read_text(text: &Vec<char>, pos: usize) -> (r: Option<(usize, usize)>)
    requires
        pos <= text@.len(),
    ensures
        range_view(text@, r) == text_at(text@, pos as int),
        r matches Some((from, to)) ==> pos < from <= to <= text@.len(),
{
    let limit: u64 = (text.len() - pos) as u64;
    match read_number(text, pos, limit) {
        None => None,
        Some((n, p)) => {
            if p < text.len() && text[p] == ':' && n as usize <= text.len() - p - 1 {
                Some((p + 1, p + 1 + n as usize))
            } else {
                None
            }
        },
    }
}

/// Reads the entry whose line starts at `pos`, and says where the next line
/// starts.
pub fn read_entry(text: &Vec<char>, pos: usize) -> (r: Option<(CacheEntry, usize)>)
    requires
        pos <= text@.len(),
    ensures
        line_view(r) == entry_at(text@, pos as int),
        r matches Some((_, next)) ==> pos < next <= text@.len(),
{
    if text.len() - pos < 2 {
        return None;
    }
    let letter = text[pos];
    if !(letter == 'S' || letter == 'F') || text[pos + 1] != ' ' {
        return None;
    }
    let (attempts, p) = match read_number(text, pos + 2, 255) {
        None => { return None; },
        Some(read) => read,
    };
    if !(p < text.len() && text[p] == ' ') {
        return None;
    }
    let (from, q) = match read_text(text, p + 1) {
        None => { return None; },
        Some(read) => read,
    };
    if letter == 'S' {
        if q < text.len() && text[q] == '\n' {
            let target = string_of(text, from, q);
            let outcome = Outcome::Succeeded;
            Some((CacheEntry { target, outcome, attempts: attempts as u8 }, q + 1))
        } else {
            None
        }
    } else {
        if !(q < text.len() && text[q] == ' ') {
            return None;
        }
        let (reason_from, r) = match read_text(text, q + 1) {
            None => { return None; },
            Some(read) => read,
        };
        if r < text.len() && text[r] == '\n' {
            let target = string_of(text, from, q);
            let reason = string_of(text, reason_from, r);
            let outcome = Outcome::Failed(reason);
            Some((CacheEntry { target, outcome, attempts: attempts as u8 }, r + 1))
        } else {
            None
        }
    }
}

/// Appends the written form of `t` to `out`.
pub fn push_text(out: &mut String, t: &str)
    ensures
        final(out)@ == old(out)@ + text_code(t@),
{
    let n = t.unicode_len();
    push_number(out, n as u64);
    out.push(':');
    out.append(t);
}

/// Appends the line of `e` to `out`.
pub fn push_entry(out: &mut String, e: &CacheEntry)
    ensures
        final(out)@ == old(out)@ + entry_code(e@),
{
    match &e.outcome {
        Outcome::Succeeded => {
            out.push('S');
            out.push(' ');
            push_number(out, e.attempts as u64);
            out.push(' ');
            push_text(out, e.target.as_str());
            out.push('\n');
        },
        Outcome::Failed(reason) => {
            out.push('F');
            out.push(' ');
            push_number(out, e.attempts as u64);
            out.push(' ');
            push_text(out, e.target.as_str());
            out.push(' ');
            push_text(out, reason.as_str());
            out.push('\n');
        },
    }
}

/// The written form of a cache.
pub fn encode(cache: &ProgressCache) -> (text: String)
    ensures
        text@ == cache_code(cache@),
{
    let entries = cache.entries();
    let mut out = String::new();
    let mut i: usize = 0;
    while i < entries.len()
        invariant
            i <= entries@.len(),
            entries_view(entries@) == cache@,
            out@ == cache_code(cache@.take(i as int)),
        decreases entries@.len() - i,
    {
        proof {
            assert(cache@.take(i + 1).drop_last() =~= cache@.take(i as int));
        }
        push_entry(&mut out, &entries[i]);
        i += 1;
    }
    assert(cache@.take(i as int) =~= cache@);
    out
}

/// The cache that a text is the written form of.
///
/// A text that is the written form of no list of entries is `Malformed`; one
/// that is the written form of entries of which two have the same target is
/// a `RepeatedTarget`.
pub fn decode(text: &str) -> (r: Result<ProgressCache, CacheLoadError>)
    ensures
        loaded_view(r) == read_cache(text@),
{
    let chars = chars_of(text);
    let mut cache = ProgressCache::new();
    let mut repeated = false;
    let mut pos: usize = 0;
    let ghost mut done: Seq<EntryView> = Seq::empty();
    while pos < chars.len()
        invariant
            pos <= chars@.len(),
            chars@ == text@,
            entries_at(chars@, 0) == match entries_at(chars@, pos as int) {
                Some(rest) => Some(done + rest),
                None => None,
            },
            !repeated ==> cache@ == done && distinct_targets(done),
            repeated ==> !distinct_targets(done),
        decreases chars@.len() - pos,
    {
        match read_entry(&chars, pos) {
            None => {
                proof {
                    assert forall|es: Seq<EntryView>| #[trigger] cache_code(es) != text@ by {
                        if cache_code(es) == text@ {
                            assert(chars@.subrange(0, chars@.len() as int) =~= chars@);
                            lemma_entries_at_code(chars@, 0, es);
                        }
                    }
                }
                return Err(CacheLoadError::Malformed);
            },
            Some((entry, next)) => {
                let ghost before = done;
                proof {
                    done = done.push(entry@);
                }
                if !repeated {
                    match cache.find(entry.target.as_str()) {
                        Some(k) => {
                            repeated = true;
                            proof {
                                assert(done[k as int].target == done[before.len() as int].target);
                            }
                        },
                        None => {
                            let CacheEntry { target, outcome, attempts } = entry;
                            cache.record(target.as_str(), outcome, attempts);
                        },
                    }
                } else {
                    proof {
                        let (i, j) = choose|i: int, j: int|
                            0 <= i < j < before.len() && (#[trigger] before[i]).target == (
                            #[trigger] before[j]).target;
                        assert(done[i].target == done[j].target);
                    }
                }
                pos = next;
            },
        }
    }
    proof {
        assert(chars@.subrange(0, chars@.len() as int) =~= chars@);
        lemma_entries_at_sound(chars@, 0);
        let es = choose|es: Seq<EntryView>| #[trigger] cache_code(es) == text@;
        lemma_cache_code_injective(es, done);
    }
    if repeated {
        Err(CacheLoadError::RepeatedTarget)
    } else {
        Ok(cache)
    }
}

/// The cache to start a batch from: the one that the cache file holds, or an
/// empty one where there is no file yet.
pub fn load(content: Option<&str>) -> (r: Result<ProgressCache, CacheLoadError>)
    ensures
        loaded_view(r) == load_spec(
            match content {
                Some(text) => Some(text@),
                None => None,
            },
        ),
{
    match content {
        None => Ok(ProgressCache::new()),
        Some(text) => decode(text),
    }
}

/// Two caches with the same written form are the same cache.
pub proof fn lemma_cache_code_injective(a: Seq<EntryView>, b: Seq<EntryView>)
    requires
        cache_code(a) == cache_code(b),
    ensures
        a == b,
{
    let s = cache_code(a);
    assert(s.subrange(0, s.len() as int) =~= s);
    lemma_entries_at_code(s, 0, a);
    lemma_entries_at_code(s, 0, b);
}

/// Writing a cache and reading the text back gives the cache.
pub proof fn lemma_read_written(es: Seq<EntryView>)
    requires
        distinct_targets(es),
    ensures
        read_cache(cache_code(es)) == Ok::<Seq<EntryView>, CacheLoadError>(es),
{
    let read = choose|read: Seq<EntryView>| #[trigger] cache_code(read) == cache_code(es);
    lemma_cache_code_injective(read, es);
}

/// Reading a cache file and writing the cache gives the file: a text from
/// which a cache is read is the written form of that cache.
pub proof fn lemma_written_read(text: Seq<char>)
    requires
        read_cache(text) is Ok,
    ensures
        cache_code(read_cache(text)->Ok_0) == text,
{
}

/// A text of which two lines are for one target is refused, whatever else
/// it holds.
pub proof fn lemma_repeated_refused(es: Seq<EntryView>)
    requires
        !distinct_targets(es),
    ensures
        read_cache(cache_code(es)) == Err::<Seq<EntryView>, CacheLoadError>(
            CacheLoadError::RepeatedTarget,
        ),
{
    let read = choose|read: Seq<EntryView>| #[trigger] cache_code(read) == cache_code(es);
    lemma_cache_code_injective(read, es);
}

} // verus!
