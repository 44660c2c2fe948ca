//! The parser for the text of one rule file.
//!
//! A rule file is read line by line. A line that starts with `#` is a comment, one that starts
//! with `{` is a rule written as a JSON object, and every other line is ignored. The comments
//! that stand directly above a rule, or above a run of rules, are attached to each of them. A
//! blank line ends the block; so does the first comment after a rule.

use vstd::prelude::*;
use crate::domain::models::{EnrichedRule, EnrichedView, rule_views};
use crate::json::{decode_line, decode_rule};
use crate::text::{
    chars_of,
    join_lines,
    join_with_newlines,
    line_ranges,
    lines,
    pieces,
    string_of,
    string_views,
    trim_range,
    trimmed,
};

verus! {

/// Where the parser stands between two lines.
pub ghost struct ParserState {
    /// The comment lines of the current block.
    pub comments: Seq<Seq<char>>,
    /// Whether a rule has been read since the block's last comment.
    pub consumed: bool,
    /// The rules read so far.
    pub rules: Seq<EnrichedView>,
}

/// The state before the first line.
pub open spec fn initial_state() -> ParserState {
    ParserState { comments: Seq::empty(), consumed: false, rules: Seq::empty() }
}

/// The comment that a rule gets from the block above it.
pub open spec fn block_comment(comments: Seq<Seq<char>>) -> Option<Seq<char>> {
    if comments.len() == 0 {
        None
    } else {
        Some(join_lines(comments))
    }
}

/// The state after one more line.
pub open spec fn step(state: ParserState, line: Seq<char>, source_file: Seq<char>) -> ParserState {
    let t = trimmed(line);
    if t.len() == 0 {
        ParserState { comments: Seq::empty(), consumed: false, rules: state.rules }
    } else if t[0] == '#' {
        let kept = if state.consumed {
            Seq::empty()
        } else {
            state.comments
        };
        ParserState { comments: kept.push(t), consumed: false, rules: state.rules }
    } else {
        match decode_rule(t) {
            Some(data) => ParserState {
                comments: state.comments,
                consumed: true,
                rules: state.rules.push(
                    EnrichedView {
                        data,
                        context_comment: block_comment(state.comments),
                        source_file,
                        shadowed: false,
                    },
                ),
            },
            None => state,
        }
    }
}

/// The state after all of `all_lines`, in order.
pub open spec fn run(all_lines: Seq<Seq<char>>, source_file: Seq<char>) -> ParserState
    decreases all_lines.len(),
{
    if all_lines.len() == 0 {
        initial_state()
    } else {
        step(run(all_lines.drop_last(), source_file), all_lines.last(), source_file)
    }
}

/// The rules that the text of a rule file holds, in the order of the file.
pub open spec fn parsed_rules(content: Seq<char>, source_file: Seq<char>) -> Seq<EnrichedView> {
    run(lines(content), source_file).rules
}

/// Whether a line is passed over: it is not blank, is no comment, and is not read as a rule.
pub open spec fn is_skipped(line: Seq<char>) -> bool {
    let t = trimmed(line);
    t.len() > 0 && t[0] != '#' && decode_rule(t) is None
}

/// Whether a line is read as a rule.
pub open spec fn is_rule_line(line: Seq<char>) -> bool {
    let t = trimmed(line);
    t.len() > 0 && t[0] != '#' && decode_rule(t) is Some
}

/// A line that is passed over leaves the parser where it stood.
pub proof fn lemma_skipped_line_keeps_state(state: ParserState, line: Seq<char>, source_file: Seq<char>)
    requires
        is_skipped(line),
    ensures
        step(state, line, source_file) == state,
{
}

/// A line that cannot be read does not end the parsing, and takes nothing from what the
/// other lines give: the text without the line holds the same rules.
pub proof fn lemma_skipped_line_changes_nothing(
    all_lines: Seq<Seq<char>>,
    k: int,
    source_file: Seq<char>,
)
    requires
        0 <= k < all_lines.len(),
        is_skipped(all_lines[k]),
    ensures
        run(all_lines.remove(k), source_file) == run(all_lines, source_file),
    decreases all_lines.len(),
{
    if k == all_lines.len() - 1 {
        assert(all_lines.remove(k) =~= all_lines.drop_last());
    } else {
        assert(all_lines.remove(k).drop_last() =~= all_lines.drop_last().remove(k));
        assert(all_lines.remove(k).last() == all_lines.last());
        lemma_skipped_line_changes_nothing(all_lines.drop_last(), k, source_file);
    }
}

/// No line takes away a rule that was read before it: the rules read from the first lines
/// of a text open the rules read from all of it.
pub proof fn lemma_rules_only_grow(all_lines: Seq<Seq<char>>, n: int, source_file: Seq<char>)
    requires
        0 <= n <= all_lines.len(),
    ensures
        run(all_lines.take(n), source_file).rules.is_prefix_of(run(all_lines, source_file).rules),
    decreases all_lines.len(),
{
    if n == all_lines.len() {
        assert(all_lines.take(n) =~= all_lines);
    } else {
        assert(all_lines.drop_last().take(n) =~= all_lines.take(n));
        lemma_rules_only_grow(all_lines.drop_last(), n, source_file);
        let before = run(all_lines.drop_last(), source_file);
        let after = step(before, all_lines.last(), source_file);
        assert(before.rules.is_prefix_of(after.rules));
    }
}

/// A rule that stands directly below another gets the comment that the other got.
pub proof fn lemma_rules_share_their_comment(
    state: ParserState,
    first: Seq<char>,
    second: Seq<char>,
    source_file: Seq<char>,
)
    requires
        is_rule_line(first),
        is_rule_line(second),
    ensures
        ({
            let rules = step(step(state, first, source_file), second, source_file).rules;
            &&& rules.len() == state.rules.len() + 2
            &&& rules[rules.len() - 1].context_comment == rules[rules.len() - 2].context_comment
            &&& rules[rules.len() - 1].context_comment == block_comment(state.comments)
        }),
{
}

/// After a blank line a rule has no comment unless new comment lines come first, and the
/// first comment after a rule starts a block of its own.
pub proof fn lemma_blocks_end(state: ParserState, line: Seq<char>, source_file: Seq<char>)
    ensures
        trimmed(line).len() == 0 ==> step(state, line, source_file).comments.len() == 0,
        trimmed(line).len() > 0 && trimmed(line)[0] == '#' && state.consumed ==> step(
            state,
            line,
            source_file,
        ).comments == seq![trimmed(line)],
        trimmed(line).len() > 0 && trimmed(line)[0] == '#' && !state.consumed ==> step(
            state,
            line,
            source_file,
        ).comments == state.comments.push(trimmed(line)),
{
}

/// Reads the rules out of the text of one rule file. Each rule carries the path given as
/// `source_file` and is not shadowed. A line that cannot be read as a rule is skipped.
pub fn parse_file(content: &str, source_file: &str) -> (rules: Vec<EnrichedRule>)
    ensures
        rule_views(rules@) == parsed_rules(content@, source_file@),
{
    let chars = chars_of(content);
    let ranges = line_ranges(&chars);
    let ghost all_lines = lines(content@);
    let mut rules: Vec<EnrichedRule> = Vec::new();
    let mut comments: Vec<String> = Vec::new();
    let mut consumed = false;
    let mut i: usize = 0;
    assert(all_lines.take(0) =~= Seq::<Seq<char>>::empty());
    assert(rule_views(rules@) =~= Seq::<EnrichedView>::empty());
    assert(string_views(comments@) =~= Seq::<Seq<char>>::empty());
    while i < ranges.len()
        invariant
            i <= ranges.len(),
            chars@ == content@,
            all_lines == lines(content@),
            pieces(chars@, ranges@) == all_lines,
            forall|k: int| 0 <= k < ranges.len() ==> (#[trigger] ranges[k]).0 <= ranges[k].1 <= chars.len(),
            run(all_lines.take(i as int), source_file@) == (ParserState {
                comments: string_views(comments@),
                consumed,
                rules: rule_views(rules@),
            }),
        decreases ranges.len() - i,
    {
        let (a, b) = ranges[i];
        let ghost line = all_lines[i as int];
        proof {
            assert(all_lines.take(i + 1).drop_last() =~= all_lines.take(i as int));
            assert(all_lines.take(i + 1).last() == line);
            assert(line == chars@.subrange(a as int, b as int));
        }
        let (ta, tb) = trim_range(&chars, a, b);
        let ghost t = trimmed(line);
        assert(t == chars@.subrange(ta as int, tb as int));
        if ta == tb {
            comments = Vec::new();
            consumed = false;
            assert(string_views(comments@) =~= Seq::<Seq<char>>::empty());
        } else if chars[ta] == '#' {
            assert(t[0] == '#');
            if consumed {
                comments = Vec::new();
                consumed = false;
                assert(string_views(comments@) =~= Seq::<Seq<char>>::empty());
            }
            let ghost kept = string_views(comments@);
            let text = string_of(&chars, ta, tb);
            comments.push(text);
            assert(string_views(comments@) =~= kept.push(t));
        } else {
            assert(t[0] == chars[ta as int]);
            if chars[ta] == '{' {
                let line_text = string_of(&chars, ta, tb);
                match decode_line(line_text.as_str()) {
                    Some(data) => {
                        let context_comment = if comments.len() == 0 {
                            None
                        } else {
                            Some(join_with_newlines(&comments))
                        };
                        let ghost old_rules = rule_views(rules@);
                        let rule = EnrichedRule {
                            data,
                            context_comment,
                            source_file: source_file.to_owned(),
                            shadowed: false,
                        };
                        rules.push(rule);
                        consumed = true;
                        assert(rule_views(rules@) =~= old_rules.push(rule@));
                    },
                    None => {},
                }
            }
        }
        i = i + 1;
    }
    assert(all_lines.take(ranges.len() as int) =~= all_lines);
    rules
}

} // verus!
