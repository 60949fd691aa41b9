//! Target resolution: which targets a run is to work on.
//!
//! The targets come from a list, one to a line, or from what a progress cache
//! holds as not yet succeeded. A target that a list names more than once is
//! worked on once: only its first line counts.

use crate::cache::distinct_targets;
use crate::cache::EntryView;
use crate::cache::pending_targets;
use crate::cache::ProgressCache;
use crate::text::chars_of;
use crate::text::same_text;
use crate::text::string_of;
use crate::text::strings_view;
use vstd::prelude::*;

verus! {

/// Whether `c` is white space: a character with the Unicode property of
/// that name.
pub open spec fn is_space(c: char) -> bool {
    let n = c as int;
    ||| 0x09 <= n <= 0x0D
    ||| n == 0x20
    ||| n == 0x85
    ||| n == 0xA0
    ||| n == 0x1680
    ||| 0x2000 <= n <= 0x200A
    ||| n == 0x2028
    ||| n == 0x2029
    ||| n == 0x202F
    ||| n == 0x205F
    ||| n == 0x3000
}

/// Where the white space that starts at `pos` ends.
pub open spec fn skip_spaces(s: Seq<char>, pos: int) -> int
    decreases s.len() - pos,
{
    if 0 <= pos < s.len() && is_space(s[pos]) {
        skip_spaces(s, pos + 1)
    } else {
        pos
    }
}

/// Where the white space that ends at `end` starts.
pub open spec fn skip_spaces_back(s: Seq<char>, end: int) -> int
    decreases end,
{
    if 0 < end <= s.len() && is_space(s[end - 1]) {
        skip_spaces_back(s, end - 1)
    } else {
        end
    }
}

/// `s` without the white space at its two ends.
pub open spec fn trim(s: Seq<char>) -> Seq<char> {
    let from = skip_spaces(s, 0);
    if from >= s.len() {
        Seq::empty()
    } else {
        s.subrange(from, skip_spaces_back(s, s.len() as int))
    }
}

/// The lines of a text: what stands between its line feeds. A text with `n`
/// line feeds has `n + 1` lines, of which any may be empty.
pub open spec fn lines_of(s: Seq<char>) -> Seq<Seq<char>>
    decreases s.len(),
{
    if s.len() == 0 {
        seq![Seq::empty()]
    } else {
        let before = lines_of(s.drop_last());
        if s.last() == '\n' {
            before.push(Seq::empty())
        } else {
            before.update(before.len() - 1, before.last().push(s.last()))
        }
    }
}

/// The lines put together again, with a line feed between each two.
pub open spec fn joined(lines: Seq<Seq<char>>) -> Seq<char>
    decreases lines.len(),
{
    if lines.len() == 0 {
        Seq::empty()
    } else if lines.len() == 1 {
        lines[0]
    } else {
        joined(lines.drop_last()) + seq!['\n'] + lines.last()
    }
}

/// The targets after one more line was read: the line's target is added
/// unless the line is blank or the target is there already.
pub open spec fn with_line(targets: Seq<Seq<char>>, line: Seq<char>) -> Seq<Seq<char>> {
    let target = trim(line);
    if target.len() == 0 || targets.contains(target) {
        targets
    } else {
        targets.push(target)
    }
}

/// The targets that the lines name, each once, in the order of their first
/// lines.
pub open spec fn listed(lines: Seq<Seq<char>>) -> Seq<Seq<char>>
    decreases lines.len(),
{
    if lines.len() == 0 {
        Seq::empty()
    } else {
        with_line(listed(lines.drop_last()), lines.last())
    }
}

/// The targets that a list names.
pub open spec fn targets_in(text: Seq<char>) -> Seq<Seq<char>> {
    listed(lines_of(text))
}

/// No target occurs twice.
pub open spec fn distinct(targets: Seq<Seq<char>>) -> bool {
    forall|i: int, j: int| 0 <= i < j < targets.len() ==> targets[i] != targets[j]
}

/// Why no targets could be resolved.
#[derive(Clone, Copy, Debug, PartialEq, Eq)]
pub enum ResolveError {
    /// Neither a list nor a cache was given.
    NoTargetsSpecified,
}

/// What the result of a resolution stands for.
pub open spec fn resolved_view(r: Result<Vec<String>, ResolveError>) -> Result<
    Seq<Seq<char>>,
    ResolveError,
> {
    match r {
        Ok(targets) => Ok(strings_view(targets@)),
        Err(e) => Err(e),
    }
}

/// The targets to work on: those of the list where there is one, else those
/// that the cache holds as not yet succeeded.
pub open spec fn resolve_spec(list: Option<Seq<char>>, cache: Option<Seq<EntryView>>) -> Result<
    Seq<Seq<char>>,
    ResolveError,
> {
    match list {
        Some(text) => Ok(targets_in(text)),
        None => match cache {
            Some(es) => Ok(pending_targets(es)),
            None => Err(ResolveError::NoTargetsSpecified),
        },
    }
}

/// The lines of a text hold no line feed, and put together again they are
/// the text.
pub proof fn lemma_lines_of(s: Seq<char>)
    ensures
        lines_of(s).len() >= 1,
        joined(lines_of(s)) == s,
        forall|i: int, k: int|
            0 <= i < lines_of(s).len() && 0 <= k < lines_of(s)[i].len() ==> #[trigger] lines_of(
                s,
            )[i][k] != '\n',
    decreases s.len(),
{
    if s.len() > 0 {
        let init = s.drop_last();
        let before = lines_of(init);
        let lines = lines_of(s);
        lemma_lines_of(init);
        assert(s =~= init.push(s.last()));
        if s.last() == '\n' {
            assert(lines.drop_last() =~= before);
        } else if before.len() > 1 {
            assert(lines.drop_last() =~= before.drop_last());
        }
    }
}

/// White space that lasts from `pos` to `end` ends where the white space
/// from `end` ends.
pub proof fn lemma_skip_spaces(s: Seq<char>, pos: int, end: int)
    requires
        0 <= pos <= end <= s.len(),
        forall|i: int| pos <= i < end ==> is_space(#[trigger] s[i]),
    ensures
        skip_spaces(s, pos) == skip_spaces(s, end),
    decreases end - pos,
{
    if pos < end {
        lemma_skip_spaces(s, pos + 1, end);
    }
}

/// White space that lasts from `start` to `end` starts where the white space
/// up to `start` starts.
pub proof fn lemma_skip_spaces_back(s: Seq<char>, start: int, end: int)
    requires
        0 <= start <= end <= s.len(),
        forall|i: int| start <= i < end ==> is_space(#[trigger] s[i]),
    ensures
        skip_spaces_back(s, end) == skip_spaces_back(s, start),
    decreases end - start,
{
    if start < end {
        lemma_skip_spaces_back(s, start, end - 1);
    }
}

/// What `trim` leaves is a part of the text that neither starts nor ends
/// with white space, and all that it takes away is white space.
pub proof fn lemma_trim(s: Seq<char>)
    ensures
        trim(s).len() > 0 ==> !is_space(trim(s)[0]) && !is_space(trim(s).last()),
        exists|from: int, to: int|
            {
                &&& 0 <= from <= to <= s.len()
                &&& #[trigger] s.subrange(from, to) == trim(s)
                &&& forall|i: int| 0 <= i < from ==> is_space(#[trigger] s[i])
                &&& forall|i: int| to <= i < s.len() ==> is_space(#[trigger] s[i])
            },
{
    let from = skip_spaces(s, 0);
    let to = skip_spaces_back(s, s.len() as int);
    lemma_skip_spaces_bounds(s, 0);
    lemma_skip_spaces_back_bounds(s, s.len() as int);
    if from >= s.len() {
        assert(s.subrange(from, from) =~= trim(s));
    } else {
        assert(s.subrange(from, to) == trim(s));
    }
}

/// Where the white space from `pos` ends: within the text, after white space
/// only, and before a character that is none.
pub proof fn lemma_skip_spaces_bounds(s: Seq<char>, pos: int)
    requires
        0 <= pos <= s.len(),
    ensures
        pos <= skip_spaces(s, pos) <= s.len(),
        forall|i: int| pos <= i < skip_spaces(s, pos) ==> is_space(#[trigger] s[i]),
        skip_spaces(s, pos) < s.len() ==> !is_space(s[skip_spaces(s, pos)]),
    decreases s.len() - pos,
{
    if pos < s.len() && is_space(s[pos]) {
        lemma_skip_spaces_bounds(s, pos + 1);
    }
}

/// Where the white space up to `end` starts: within the text, before white
/// space only, and after a character that is none.
pub proof fn lemma_skip_spaces_back_bounds(s: Seq<char>, end: int)
    requires
        0 <= end <= s.len(),
    ensures
        0 <= skip_spaces_back(s, end) <= end,
        forall|i: int| skip_spaces_back(s, end) <= i < end ==> is_space(#[trigger] s[i]),
        skip_spaces_back(s, end) > 0 ==> !is_space(s[skip_spaces_back(s, end) - 1]),
    decreases end,
{
    if 0 < end && is_space(s[end - 1]) {
        lemma_skip_spaces_back_bounds(s, end - 1);
    }
}

/// The targets of a list are not blank, and none of them occurs twice.
pub proof fn lemma_listed_distinct(lines: Seq<Seq<char>>)
    ensures
        distinct(listed(lines)),
        forall|i: int| 0 <= i < listed(lines).len() ==> (#[trigger] listed(lines)[i]).len() > 0,
    decreases lines.len(),
{
    if lines.len() > 0 {
        lemma_listed_distinct(lines.drop_last());
    }
}

/// A target is listed exactly when some line, trimmed, is that target and
/// is not blank.
pub proof fn lemma_listed_contains(lines: Seq<Seq<char>>, target: Seq<char>)
    ensures
        listed(lines).contains(target) <==> target.len() > 0 && exists|i: int|
            0 <= i < lines.len() && trim(#[trigger] lines[i]) == target,
    decreases lines.len(),
{
    if lines.len() > 0 {
        let init = lines.drop_last();
        lemma_listed_contains(init, target);
        let before = listed(init);
        let after = listed(lines);
        if target.len() > 0 && exists|i: int|
            0 <= i < lines.len() && trim(#[trigger] lines[i]) == target {
            let i = choose|i: int| 0 <= i < lines.len() && trim(#[trigger] lines[i]) == target;
            if i < init.len() {
                assert(init[i] == lines[i]);
                let k = choose|k: int| 0 <= k < before.len() && before[k] == target;
                assert(after[k] == target);
            } else if !before.contains(target) {
                assert(after[before.len() as int] == target);
            }
        }
    }
}

/// The pending targets of a cache are distinct.
pub proof fn lemma_pending_distinct(es: Seq<EntryView>)
    requires
        distinct_targets(es),
    ensures
        distinct(pending_targets(es)),
    decreases es.len(),
{
    if es.len() > 0 {
        let init = es.drop_last();
        lemma_pending_distinct(init);
        let before = pending_targets(init);
        if !(es.last().outcome is Succeeded) {
            assert forall|i: int| 0 <= i < before.len() implies before[i] != es.last().target by {
                crate::cache::lemma_pending_targets(init, before[i]);
            }
        }
    }
}

/// Whether `c` is white space.
pub fn is_space_char(c: char) -> (b: bool)
    ensures
        b == is_space(c),
{
    let n: u32 = c as u32;
    (0x09 <= n && n <= 0x0D) || n == 0x20 || n == 0x85 || n == 0xA0 || n == 0x1680 || (0x2000 <= n
        && n <= 0x200A) || n == 0x2028 || n == 0x2029 || n == 0x202F || n == 0x205F || n == 0x3000
}

/// Whether `text` is one of `list`.
pub fn contains_text(list: &Vec<String>, text: &str) -> (b: bool)
    ensures
        b == strings_view(list@).contains(text@),
{
    let mut i: usize = 0;
    while i < list.len()
        invariant
            i <= list@.len(),
            forall|k: int| 0 <= k < i ==> strings_view(list@)[k] != text@,
        decreases list@.len() - i,
    {
        if same_text(list[i].as_str(), text) {
            assert(strings_view(list@)[i as int] == text@);
            return true;
        }
        i += 1;
    }
    false
}

/// Reads the line `chars[from..to]`: adds its target to `targets` unless the
/// line is blank or the target is there already.
pub fn add_line(targets: &mut Vec<String>, chars: &Vec<char>, from: usize, to: usize)
    requires
        from <= to <= chars@.len(),
    ensures
        strings_view(final(targets)@) == with_line(
            strings_view(old(targets)@),
            chars@.subrange(from as int, to as int),
        ),
{
    let ghost line = chars@.subrange(from as int, to as int);
    let mut a: usize = from;
    while a < to && is_space_char(chars[a])
        invariant
            from <= a <= to <= chars@.len(),
            line == chars@.subrange(from as int, to as int),
            forall|k: int| 0 <= k < a - from ==> is_space(#[trigger] line[k]),
        decreases to - a,
    {
        a += 1;
    }
    proof {
        lemma_skip_spaces(line, 0, a - from);
    }
    if a == to {
        return ;
    }
    let mut b: usize = to;
    while b > a && is_space_char(chars[b - 1])
        invariant
            from <= a <= b <= to <= chars@.len(),
            line == chars@.subrange(from as int, to as int),
            forall|k: int| b - from <= k < line.len() ==> is_space(#[trigger] line[k]),
        decreases b,
    {
        b -= 1;
    }
    proof {
        lemma_skip_spaces_back(line, b - from, line.len() as int);
        assert(line.subrange(a - from, b - from) =~= chars@.subrange(a as int, b as int));
    }
    let target = string_of(chars, a, b);
    if !contains_text(targets, target.as_str()) {
        targets.push(target);
    }
}

/// The targets that a list names: one to a line, without the white space
/// around it. Blank lines name none, and a target that is named again is not
/// listed again.
pub fn parse_target_list(text: &str) -> (targets: Vec<String>)
    ensures
        strings_view(targets@) == targets_in(text@),
        distinct(strings_view(targets@)),
{
    let chars = chars_of(text);
    let mut targets: Vec<String> = Vec::new();
    let mut start: usize = 0;
    let mut i: usize = 0;
    let ghost mut done: Seq<Seq<char>> = Seq::empty();
    proof {
        assert(chars@.take(0) =~= Seq::<char>::empty());
    }
    while i < chars.len()
        invariant
            start <= i <= chars@.len(),
            lines_of(chars@.take(i as int)) == done.push(chars@.subrange(start as int, i as int)),
            strings_view(targets@) == listed(done),
        decreases chars@.len() - i,
    {
        proof {
            assert(chars@.take(i + 1).drop_last() =~= chars@.take(i as int));
        }
        if chars[i] == '\n' {
            add_line(&mut targets, &chars, start, i);
            proof {
                let line = chars@.subrange(start as int, i as int);
                assert(done.push(line).drop_last() =~= done);
                done = done.push(line);
                assert(chars@.subrange(i + 1, i + 1) =~= Seq::<char>::empty());
            }
            start = i + 1;
        } else {
            proof {
                let line = chars@.subrange(start as int, i as int);
                assert(line.push(chars@[i as int]) =~= chars@.subrange(start as int, i + 1));
            }
        }
        i += 1;
    }
    add_line(&mut targets, &chars, start, i);
    proof {
        let line = chars@.subrange(start as int, i as int);
        assert(chars@.take(i as int) =~= chars@);
        assert(done.push(line).drop_last() =~= done);
        lemma_listed_distinct(lines_of(text@));
    }
    targets
}

/// The targets of a run, each once: those that the list names, where a list
/// is given; else those that the cache holds as not yet succeeded; and
/// `NoTargetsSpecified` where neither is given.
pub fn resolve(list: Option<&str>, cache: Option<&ProgressCache>) -> (r: Result<
    Vec<String>,
    ResolveError,
>)
    ensures
        resolved_view(r) == resolve_spec(
            match list {
                Some(text) => Some(text@),
                None => None,
            },
            match cache {
                Some(c) => Some(c@),
                None => None,
            },
        ),
        r matches Ok(targets) ==> distinct(strings_view(targets@)),
{
    match list {
        Some(text) => Ok(parse_target_list(text)),
        None => match cache {
            Some(c) => {
                let pending = c.pending();
                proof {
                    lemma_pending_distinct(c@);
                }
                Ok(pending)
            },
            None => Err(ResolveError::NoTargetsSpecified),
        },
    }
}

} // verus!
