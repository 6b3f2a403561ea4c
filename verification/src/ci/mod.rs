//! Turning a project's CI configuration into a coverage-tool invocation.

pub mod command;
pub mod github;
pub mod gitlab;
pub mod travis;
pub mod types;

use vstd::prelude::*;
use vstd::string::StringExecFns;
use crate::ci::command::{without_first, Ignored, IgnoredView, Invocation, InvocationView};
use crate::runner::{Context, CrateSpec};
use crate::text::{
    contains, contains_text, decimal_of, flush, format_decimal, free_of, has_char,
    lemma_lines_are_parts, lemma_lines_of_one_line, lemma_part_is_free_of,
    lemma_replaced_is_free_of, lines_of, occurs_at, replace_text, replaced, replaced_from,
    split_lines, split_whitespace, words,
};

verus! {

/// The words that call the test command.
pub const TEST_KEYWORD: &'static str = "cargo test";

/// The words that call the coverage tool in its place.
pub const COVERAGE_KEYWORD: &'static str = "cargo tarpaulin";

/// A backslash, any whitespace after it, and the line feed that ends the line.
pub const CONTINUATION_PATTERN: &'static str = r#"(?m)\\\s*\n"#;

/// The test keyword with the run that follows it of letters, digits, `-`,
/// whitespace, `$`, `{`, `}`, `.`, `"` and `~`, ended by a `;` where one
/// stands there, by a marked line end, by `&&`, or by the end of the text.
pub const TEST_COMMAND_PATTERN: &'static str =
    r#"cargo test\s*([\-a-zA-Z\d\s\$\{\}\."~\n])*(;?|\s*~\\\s*\n|&&|$)"#;

/// Whether `pattern` is a regular expression that the engine accepts.
pub uninterp spec fn regex_accepts(pattern: Seq<char>) -> bool;

/// `text` with every match of `pattern` replaced by `with`.
pub uninterp spec fn regex_replace_all(pattern: Seq<char>, text: Seq<char>, with: Seq<char>) -> Seq<
    char,
>;

/// The matches of `pattern` in `text`: from the left, none overlapping another.
pub uninterp spec fn regex_matches(pattern: Seq<char>, text: Seq<char>) -> Seq<Seq<char>>;

/// Asks `regex::Regex::new` whether it accepts `pattern`. Nothing is proved
/// of the answer: the contract gives it a name, so that the same pattern is
/// known to get the same answer.
#[verifier::external_body]
fn pattern_compiles(pattern: &str) -> (ok: bool)
    ensures
        ok == regex_accepts(pattern@),
{
    regex::Regex::new(pattern).is_ok()
}

/// Compiles `pattern` with `regex::Regex::new` and calls
/// `regex::Regex::replace_all` on `text`. A pattern that the engine refuses
/// is left out, since compiling it fails. Nothing is proved of the text that
/// comes back: the contract gives it a name that depends on the three
/// arguments alone.
#[verifier::external_body]
fn replace_all_matches(pattern: &str, text: &str, with: &str) -> (out: String)
    requires
        regex_accepts(pattern@),
    ensures
        out@ == regex_replace_all(pattern@, text@, with@),
{
    regex::Regex::new(pattern).unwrap().replace_all(text, with).into_owned()
}

/// Compiles `pattern` with `regex::Regex::new`, calls
/// `regex::Regex::find_iter` on `text` and hands out the text of each match,
/// in order. A pattern that the engine refuses is left out, since compiling
/// it fails. Nothing is proved of the matches: the contract gives the list a
/// name that depends on the two arguments alone, and says of it what the
/// engine documents of every match, that its text is a part of the text
/// that was searched.
#[verifier::external_body]
fn find_all_matches(pattern: &str, text: &str) -> (out: Vec<String>)
    requires
        regex_accepts(pattern@),
    ensures
        out.deep_view() == regex_matches(pattern@, text@),
        forall|k: int| 0 <= k < out.len() ==> contains_text(text@, (#[trigger] out@[k])@),
{
    regex::Regex::new(pattern).unwrap().find_iter(text).map(|m| m.as_str().to_string()).collect()
}

/// Both patterns of the extraction are accepted by the engine.
pub open spec fn patterns_accepted() -> bool {
    regex_accepts(CONTINUATION_PATTERN@) && regex_accepts(TEST_COMMAND_PATTERN@)
}

/// Whether the engine accepts both patterns of the extraction.
pub fn patterns_compile() -> (ok: bool)
    ensures
        ok == patterns_accepted(),
{
    pattern_compiles(CONTINUATION_PATTERN) && pattern_compiles(TEST_COMMAND_PATTERN)
}

/// The arguments every coverage run starts with.
pub open spec fn default_args_view() -> Seq<Seq<char>> {
    seq!["tarpaulin"@, "--debug"@, "--color"@, "never"@]
}

/// The arguments every coverage run starts with.
pub fn default_args() -> (args: Vec<String>)
    ensures
        args.deep_view() == default_args_view(),
{
    let mut args: Vec<String> = Vec::new();
    args.push(String::from_str("tarpaulin"));
    args.push(String::from_str("--debug"));
    args.push(String::from_str("--color"));
    args.push(String::from_str("never"));
    assert(args.deep_view() =~= default_args_view());
    args
}

/// Each match with the test keyword replaced by the coverage keyword.
pub open spec fn rewritten(matches: Seq<Seq<char>>) -> Seq<Seq<char>> {
    Seq::new(matches.len(), |i: int| replaced(matches[i], TEST_KEYWORD@, COVERAGE_KEYWORD@))
}

/// Rewrites each matched test command into a call of the coverage tool.
pub fn rewrite_matches(matches: &Vec<String>) -> (out: Vec<String>)
    ensures
        out.deep_view() == rewritten(matches.deep_view()),
{
    let mut out: Vec<String> = Vec::new();
    let mut i: usize = 0;
    while i < matches.len()
        invariant
            i <= matches.len(),
            out.len() == i,
            forall|j: int|
                0 <= j < i ==> (#[trigger] out@[j])@ == replaced(
                    matches@[j]@,
                    TEST_KEYWORD@,
                    COVERAGE_KEYWORD@,
                ),
        decreases matches.len() - i,
    {
        out.push(replace_text(matches[i].as_str(), TEST_KEYWORD, COVERAGE_KEYWORD));
        i += 1;
    }
    assert(out.deep_view() =~= rewritten(matches.deep_view()));
    out
}

/// The characters of the two keywords.
proof fn lemma_keywords()
    ensures
        TEST_KEYWORD@ == seq!['c', 'a', 'r', 'g', 'o', ' ', 't', 'e', 's', 't'],
        COVERAGE_KEYWORD@ == seq![
            'c',
            'a',
            'r',
            'g',
            'o',
            ' ',
            't',
            'a',
            'r',
            'p',
            'a',
            'u',
            'l',
            'i',
            'n',
        ],
{
    reveal_strlit("cargo test");
    reveal_strlit("cargo tarpaulin");
    assert(TEST_KEYWORD@ =~= seq!['c', 'a', 'r', 'g', 'o', ' ', 't', 'e', 's', 't']);
    assert(COVERAGE_KEYWORD@ =~= seq![
        'c',
        'a',
        'r',
        'g',
        'o',
        ' ',
        't',
        'a',
        'r',
        'p',
        'a',
        'u',
        'l',
        'i',
        'n',
    ]);
}

/// The rewritten text of `s[from..]`.
spec fn rewritten_from(s: Seq<char>, from: int) -> Seq<char> {
    replaced_from(s, TEST_KEYWORD@, COVERAGE_KEYWORD@, from)
}

/// Whether what `s[j..]` is rewritten to begins with the test keyword
/// without its first `k` characters.
spec fn continues_keyword(s: Seq<char>, j: int, k: int) -> bool {
    rewritten_from(s, j).len() >= 10 - k && forall|t: int|
        0 <= t < 10 - k ==> rewritten_from(s, j)[t] == TEST_KEYWORD@[k + t]
}

/// The test keyword cannot stand in rewritten text across characters that
/// were copied: were its first `k` characters copied from `s` just before
/// `j` and its others the start of what `s[j..]` is rewritten to, the
/// keyword would stand in `s` where the copying began.
proof fn lemma_no_keyword_across(s: Seq<char>, j: int, k: int)
    requires
        1 <= k <= 10,
        k <= j <= s.len(),
        !occurs_at(s, TEST_KEYWORD@, j - k),
        forall|t: int| 0 <= t < k ==> s[j - k + t] == TEST_KEYWORD@[t],
    ensures
        !continues_keyword(s, j, k),
    decreases 10 - k,
{
    lemma_keywords();
    let word = TEST_KEYWORD@;
    let r = rewritten_from(s, j);
    if continues_keyword(s, j, k) {
        if k == 10 {
            assert(s.subrange(j - 10, j) =~= word);
        } else if occurs_at(s, word, j) {
            assert(r[0] == COVERAGE_KEYWORD@[0]);
            assert(r[0] == word[k + 0]);
            assert(k == 1 || k == 2 || k == 3 || k == 4 || k == 5 || k == 6 || k == 7 || k == 8
                || k == 9);
        } else if j < s.len() {
            let rest = rewritten_from(s, j + 1);
            assert(r =~= seq![s[j]] + rest);
            assert(r[0] == s[j]);
            assert forall|t: int| 0 <= t < k + 1 implies s[j + 1 - (k + 1) + t] == word[t] by {
                if t == k {
                    assert(r[0] == word[k + 0]);
                }
            }
            assert forall|t: int| 0 <= t < 10 - (k + 1) implies rest[t] == word[k + 1 + t] by {
                assert(rest[t] == r[t + 1]);
                assert(r[t + 1] == word[k + (t + 1)]);
            }
            lemma_no_keyword_across(s, j + 1, k + 1);
        } else {
            assert(r.len() == 0);
        }
    }
}

/// The test keyword stands nowhere in what `s[i..]` is rewritten to.
proof fn lemma_no_keyword_from(s: Seq<char>, i: int, p: int)
    requires
        0 <= i <= s.len(),
    ensures
        !occurs_at(rewritten_from(s, i), TEST_KEYWORD@, p),
    decreases s.len() - i,
{
    lemma_keywords();
    let word = TEST_KEYWORD@;
    let tool = COVERAGE_KEYWORD@;
    let r = rewritten_from(s, i);
    if occurs_at(r, word, p) {
        assert forall|t: int| 0 <= t < 10 implies r[p + t] == word[t] by {
            assert(r.subrange(p, p + 10)[t] == r[p + t]);
        }
        if occurs_at(s, word, i) {
            let rest = rewritten_from(s, i + 10);
            assert(r =~= tool + rest);
            if p >= 15 {
                assert(rest.subrange(p - 15, p - 5) =~= r.subrange(p, p + 10));
                lemma_no_keyword_from(s, i + 10, p - 15);
            } else {
                assert(r[p + 0] == word[0]);
                assert(r[p] == tool[p]);
                assert(p == 0);
                assert(r[p + 7] == word[7]);
                assert(r[7] == tool[7]);
            }
        } else if i < s.len() {
            let rest = rewritten_from(s, i + 1);
            assert(r =~= seq![s[i]] + rest);
            if p >= 1 {
                assert(rest.subrange(p - 1, p + 9) =~= r.subrange(p, p + 10));
                lemma_no_keyword_from(s, i + 1, p - 1);
            } else {
                assert forall|t: int| 0 <= t < 1 implies s[i + 1 - 1 + t] == word[t] by {
                    assert(r[p + 0] == word[0]);
                }
                assert forall|t: int| 0 <= t < 9 implies rest[t] == word[1 + t] by {
                    assert(rest[t] == r[t + 1]);
                    assert(r[p + (t + 1)] == word[t + 1]);
                }
                lemma_no_keyword_across(s, i + 1, 1);
            }
        } else {
            assert(r.len() == 0);
        }
    }
}

/// Rewriting leaves no test keyword behind: the text that comes out of it
/// holds the keyword nowhere, so that a second look at it for the test
/// command finds nothing to rewrite.
pub proof fn law_rewritten_holds_no_keyword(text: Seq<char>)
    ensures
        !contains_text(replaced(text, TEST_KEYWORD@, COVERAGE_KEYWORD@), TEST_KEYWORD@),
{
    let out = replaced(text, TEST_KEYWORD@, COVERAGE_KEYWORD@);
    if contains_text(out, TEST_KEYWORD@) {
        let p = choose|p: int| occurs_at(out, TEST_KEYWORD@, p);
        lemma_no_keyword_from(text, 0, p);
    }
}

/// The text with its line continuations folded into one space each. Only a
/// text that holds a line feed can hold a continuation.
pub open spec fn folded(input: Seq<char>) -> Seq<char> {
    if free_of(input, '\n') {
        input
    } else {
        regex_replace_all(CONTINUATION_PATTERN@, input, " "@)
    }
}

/// The rewritten commands of one line. Only a line that holds the test
/// keyword can hold a match.
pub open spec fn line_commands(line: Seq<char>) -> Seq<Seq<char>> {
    if contains_text(line, TEST_KEYWORD@) {
        rewritten(regex_matches(TEST_COMMAND_PATTERN@, line))
    } else {
        Seq::empty()
    }
}

/// The rewritten commands of all `lines`, line after line.
pub open spec fn commands_in(lines: Seq<Seq<char>>) -> Seq<Seq<char>>
    decreases lines.len(),
{
    if lines.len() == 0 {
        Seq::empty()
    } else {
        commands_in(lines.drop_last()) + line_commands(lines.last())
    }
}

/// The coverage commands that `input` gives: its line continuations folded
/// into one space each, then the matches of the test command in each of its
/// lines, rewritten.
pub open spec fn extracted_commands(input: Seq<char>) -> Seq<Seq<char>> {
    commands_in(lines_of(folded(input)))
}

/// A text in which nothing is left to extract: one line at most, without
/// the test keyword.
pub open spec fn is_settled(text: Seq<char>) -> bool {
    free_of(text, '\n') && !contains_text(text, TEST_KEYWORD@)
}

/// A text of one line without the test keyword gives no command.
pub proof fn law_settled_text_gives_nothing(text: Seq<char>)
    requires
        is_settled(text),
    ensures
        extracted_commands(text) == Seq::<Seq<char>>::empty(),
{
    assert(text.take(0) =~= Seq::<char>::empty());
    lemma_lines_of_one_line(text, 0);
    let lines = lines_of(text);
    assert(lines == flush(text));
    if text.len() > 0 {
        assert(lines.drop_last() =~= Seq::<Seq<char>>::empty());
        assert(commands_in(lines.drop_last()) == Seq::<Seq<char>>::empty());
        assert(commands_in(lines) =~= Seq::<Seq<char>>::empty());
    }
}

/// A match that was found in a line of one piece of text is settled once it
/// is rewritten.
proof fn lemma_rewritten_match_is_settled(line: Seq<char>, found: Seq<char>)
    requires
        free_of(line, '\n'),
        contains_text(line, found),
    ensures
        is_settled(replaced(found, TEST_KEYWORD@, COVERAGE_KEYWORD@)),
{
    lemma_keywords();
    lemma_part_is_free_of(line, found, '\n');
    lemma_replaced_is_free_of(found, TEST_KEYWORD@, COVERAGE_KEYWORD@, '\n', 0);
    law_rewritten_holds_no_keyword(found);
}

/// Every command that a list of lines gives is a rewritten match.
proof fn lemma_commands_are_rewritten(lines: Seq<Seq<char>>, k: int)
    requires
        0 <= k < commands_in(lines).len(),
    ensures
        exists|found: Seq<char>|
            commands_in(lines)[k] == replaced(found, TEST_KEYWORD@, COVERAGE_KEYWORD@),
    decreases lines.len(),
{
    if lines.len() > 0 {
        let before = commands_in(lines.drop_last());
        let matches = regex_matches(TEST_COMMAND_PATTERN@, lines.last());
        if k < before.len() {
            lemma_commands_are_rewritten(lines.drop_last(), k);
        } else {
            let found = matches[k - before.len()];
            assert(commands_in(lines)[k] == line_commands(lines.last())[k - before.len()]);
            assert(commands_in(lines)[k] == replaced(found, TEST_KEYWORD@, COVERAGE_KEYWORD@));
        }
    }
}

/// The extraction does not feed on what it gives: no command that comes out
/// of it holds the test keyword, whatever the input and whatever the engine
/// matched, so that looking in such a command for the test command finds
/// nothing.
pub proof fn law_extracted_hold_no_keyword(input: Seq<char>, k: int)
    requires
        0 <= k < extracted_commands(input).len(),
    ensures
        !contains_text(extracted_commands(input)[k], TEST_KEYWORD@),
{
    let lines = lines_of(folded(input));
    lemma_commands_are_rewritten(lines, k);
    let found = choose|found: Seq<char>|
        commands_in(lines)[k] == replaced(found, TEST_KEYWORD@, COVERAGE_KEYWORD@);
    law_rewritten_holds_no_keyword(found);
}

/// Extracts from shell text the calls of the test command, each rewritten
/// into a call of the coverage tool, in the order in which they stand. The
/// extraction does not feed on what it gives: extracting from any of the
/// commands that come out finds nothing.
pub fn extract_tarpaulin_commands(input: &str) -> (res: Vec<String>)
    requires
        patterns_accepted(),
    ensures
        res.deep_view() == extracted_commands(input@),
        forall|k: int|
            0 <= k < res.len() ==> extracted_commands((#[trigger] res@[k])@) == Seq::<
                Seq<char>,
            >::empty(),
{
    let folded_text = if has_char(input, '\n') {
        replace_all_matches(CONTINUATION_PATTERN, input, " ")
    } else {
        String::from_str(input)
    };
    let lines = split_lines(folded_text.as_str());
    let mut res: Vec<String> = Vec::new();
    let mut i: usize = 0;
    assert(lines.deep_view().take(0) =~= Seq::<Seq<char>>::empty());
    assert(res.deep_view() =~= Seq::<Seq<char>>::empty());
    while i < lines.len()
        invariant
            i <= lines.len(),
            patterns_accepted(),
            lines.deep_view() == lines_of(folded_text@),
            res.deep_view() == commands_in(lines.deep_view().take(i as int)),
            forall|k: int| 0 <= k < res.len() ==> is_settled((#[trigger] res@[k])@),
        decreases lines.len() - i,
    {
        let ghost before = res.deep_view();
        let ghost settled = res@;
        let ghost next = lines.deep_view().take(i + 1);
        assert(next.drop_last() =~= lines.deep_view().take(i as int));
        assert(next.last() == lines@[i as int]@);
        if contains(lines[i].as_str(), TEST_KEYWORD) {
            let found = find_all_matches(TEST_COMMAND_PATTERN, lines[i].as_str());
            let mut commands = rewrite_matches(&found);
            let ghost added = commands@;
            proof {
                assert(lines.deep_view()[i as int] == lines@[i as int]@);
                lemma_lines_are_parts(folded_text@, i as int);
                assert(commands.deep_view().len() == found.deep_view().len());
                assert forall|t: int| 0 <= t < added.len() implies is_settled(
                    (#[trigger] added[t])@,
                ) by {
                    assert(commands.deep_view()[t] == added[t]@);
                    assert(found.deep_view()[t] == found@[t]@);
                    lemma_rewritten_match_is_settled(lines@[i as int]@, found@[t]@);
                }
            }
            res.append(&mut commands);
            assert(res@ =~= settled + added);
            assert(res.deep_view() =~= before + line_commands(lines@[i as int]@));
        } else {
            assert(before + line_commands(lines@[i as int]@) =~= before);
        }
        i += 1;
    }
    assert(lines.deep_view().take(lines.len() as int) =~= lines.deep_view());
    proof {
        assert forall|k: int| 0 <= k < res.len() implies extracted_commands(
            (#[trigger] res@[k])@,
        ) == Seq::<Seq<char>>::empty() by {
            law_settled_text_gives_nothing(res@[k]@);
        }
    }
    res
}

/// As `extract_tarpaulin_commands`, where the engine accepts both patterns;
/// none where it does not.
pub fn try_extract_tarpaulin_commands(input: &str) -> (res: Option<Vec<String>>)
    ensures
        patterns_accepted() <==> res is Some,
        res matches Some(commands) ==> commands.deep_view() == extracted_commands(input@)
            && forall|k: int|
            0 <= k < commands.len() ==> extracted_commands((#[trigger] commands@[k])@) == Seq::<
                Seq<char>,
            >::empty(),
{
    if patterns_compile() {
        Some(extract_tarpaulin_commands(input))
    } else {
        None
    }
}

/// The arguments that a list of extracted commands adds: the words of the
/// first command after its first two, which call the tool.
pub open spec fn command_args(commands: Seq<Seq<char>>) -> Seq<Seq<char>> {
    if commands.len() == 0 {
        Seq::empty()
    } else {
        without_first(words(commands[0]), 2)
    }
}

/// The commands that are left out: all but the first.
pub open spec fn command_ignored(commands: Seq<Seq<char>>) -> Seq<IgnoredView> {
    Seq::new(
        if commands.len() > 0 {
            (commands.len() - 1) as nat
        } else {
            0
        },
        |i: int| IgnoredView::Command(commands[i + 1]),
    )
}

/// An invocation after a list of extracted commands was read into it: with
/// the arguments of the first command, and with the others noted as left out.
pub open spec fn populated(cmd: InvocationView, commands: Seq<Seq<char>>) -> InvocationView {
    InvocationView {
        args: cmd.args + command_args(commands),
        ignored: cmd.ignored + command_ignored(commands),
        ..cmd
    }
}

/// Adds to `cmd` the arguments of the first of `commands`; the others are
/// left out and noted as such, for the caller to report.
pub fn populate_from_commands(commands: &Vec<String>, cmd: &mut Invocation)
    ensures
        final(cmd)@ == populated(old(cmd)@, commands.deep_view()),
{
    if commands.len() >= 1 {
        let tokens = split_whitespace(commands[0].as_str());
        cmd.args_from(&tokens, 2);
        let ghost start = cmd@;
        let ghost left_out = command_ignored(commands.deep_view());
        let mut i: usize = 1;
        assert(start.ignored + left_out.take(0) =~= start.ignored);
        while i < commands.len()
            invariant
                1 <= i <= commands.len(),
                left_out == command_ignored(commands.deep_view()),
                cmd@ == (InvocationView {
                    ignored: start.ignored + left_out.take(i - 1),
                    ..start
                }),
            decreases commands.len() - i,
        {
            let item = Ignored::Command(commands[i].clone());
            cmd.ignore(item);
            assert(left_out.take(i as int) =~= left_out.take(i - 1).push(
                IgnoredView::Command(commands@[i as int]@),
            ));
            assert(cmd@.ignored =~= start.ignored + left_out.take(i as int));
            i += 1;
        }
        assert(left_out.take(commands.len() - 1) =~= left_out);
    } else {
        assert(cmd@.args + command_args(commands.deep_view()) =~= cmd@.args);
        assert(cmd@.ignored + command_ignored(commands.deep_view()) =~= cmd@.ignored);
    }
}

/// Looks in `data` for the test command. Where it stands there, adds to
/// `cmd` the arguments of the first command that `data` gives and notes the
/// other commands as left out; else `cmd` stays as it was.
pub fn try_to_populate_command(data: &str, cmd: &mut Invocation) -> (found: bool)
    requires
        patterns_accepted(),
    ensures
        found == contains_text(data@, TEST_KEYWORD@),
        found ==> final(cmd)@ == populated(old(cmd)@, extracted_commands(data@)),
        !found ==> final(cmd)@ == old(cmd)@,
{
    if contains(data, TEST_KEYWORD) {
        let commands = extract_tarpaulin_commands(data);
        populate_from_commands(&commands, cmd);
        true
    } else {
        false
    }
}

/// The arguments that limit the number of jobs.
pub open spec fn jobs_args(jobs: Option<usize>) -> Seq<Seq<char>> {
    match jobs {
        Some(j) => seq!["--jobs"@, decimal_of(j as nat)],
        None => Seq::empty(),
    }
}

/// The name and value of the variable that sets the coverage tool's logging.
pub const LOG_VARIABLE: &'static str = "RUST_LOG";

pub const LOG_SETTING: &'static str = "cargo_tarpaulin=info";

/// Prepares `cmd` for a coverage run in `root`: the job limit if there is
/// one, the default arguments, then the batch's and the project's; the
/// logging variable, then the project's variables, then the batch's, each
/// over what was set before.
pub fn init_command(
    root: &str,
    jobs: Option<&usize>,
    context: &Context,
    spec: &CrateSpec,
    cmd: &mut Invocation,
)
    ensures
        final(cmd)@ == (InvocationView {
            program: old(cmd)@.program,
            args: old(cmd)@.args + jobs_args(
                match jobs {
                    Some(j) => Some(*j),
                    None => None,
                },
            ) + default_args_view() + context.args.deep_view() + spec.args.deep_view(),
            root: root@,
            working_directory: old(cmd)@.working_directory,
            env: old(cmd)@.env.insert(LOG_VARIABLE@, LOG_SETTING@).union_prefer_right(
                spec.env.map(),
            ).union_prefer_right(context.env.map()),
            ignored: old(cmd)@.ignored,
        }),
{
    match jobs {
        Some(j) => {
            cmd.arg("--jobs");
            let count = format_decimal(*j);
            cmd.arg(count.as_str());
            assert(cmd@.args =~= old(cmd)@.args + jobs_args(Some(*j)));
        },
        None => {
            assert(cmd@.args =~= old(cmd)@.args + jobs_args(None));
        },
    }
    let defaults = default_args();
    cmd.args(&defaults);
    cmd.env(LOG_VARIABLE, LOG_SETTING);
    cmd.args(&context.args);
    cmd.args(&spec.args);
    cmd.envs(&spec.env);
    cmd.envs(&context.env);
    cmd.current_dir(root);
}

/// What the caller found of a provider's configuration file.
#[derive(Debug, Clone, PartialEq, Eq)]
pub enum ProviderFile<T> {
    /// There is no such file.
    Absent,
    /// The file is there and could not be read as the provider's format.
    Malformed(String),
    /// The file's content.
    Parsed(T),
}

/// Why a provider gave no invocation.
#[derive(Debug, Clone, PartialEq, Eq)]
pub enum DiscoveryError {
    /// The provider's file is absent, or it holds no test command.
    NotFound,
    /// The provider's file is malformed; the reason is kept.
    Parse(String),
}

/// What a provider gave, by what it holds.
pub enum Discovery {
    Found(InvocationView),
    NotFound,
    Parse(Seq<char>),
}

/// What a provider's answer holds.
pub open spec fn discovery_of(res: Result<Invocation, DiscoveryError>) -> Discovery {
    match res {
        Ok(cmd) => Discovery::Found(cmd@),
        Err(DiscoveryError::NotFound) => Discovery::NotFound,
        Err(DiscoveryError::Parse(reason)) => Discovery::Parse(reason@),
    }
}

/// The invocation of the coverage tool before any CI configuration is read.
pub open spec fn base_invocation(
    root: Seq<char>,
    jobs: Option<usize>,
    context: &Context,
    spec: &CrateSpec,
) -> InvocationView {
    InvocationView {
        program: "cargo"@,
        args: jobs_args(jobs) + default_args_view() + context.args.deep_view()
            + spec.args.deep_view(),
        root,
        working_directory: None,
        env: Map::<Seq<char>, Seq<char>>::empty().insert(
            LOG_VARIABLE@,
            LOG_SETTING@,
        ).union_prefer_right(spec.env.map()).union_prefer_right(context.env.map()),
        ignored: Seq::empty(),
    }
}

/// The job limit as a value.
pub open spec fn jobs_value(jobs: Option<&usize>) -> Option<usize> {
    match jobs {
        Some(j) => Some(*j),
        None => None,
    }
}

/// The invocation used where no provider gives one: built from the batch's
/// and the project's arguments and environment alone.
pub fn default_spawn(root: &str, jobs: Option<&usize>, context: &Context, spec: &CrateSpec) -> (cmd:
    Invocation)
    ensures
        cmd@ == base_invocation(root@, jobs_value(jobs), context, spec),
{
    proof {
        reveal_strlit("cargo");
    }
    let mut cmd = match Invocation::new("cargo") {
        Some(cmd) => cmd,
        None => vstd::pervasive::unreached(),
    };
    init_command(root, jobs, context, spec, &mut cmd);
    assert(cmd@.args =~= base_invocation(root@, jobs_value(jobs), context, spec).args);
    cmd
}

/// The index of the first of `lines` at or after `from` that holds the test keyword.
pub open spec fn first_test_line(lines: Seq<Seq<char>>, from: int) -> Option<int>
    decreases lines.len() - from,
{
    if from < 0 || from >= lines.len() {
        None
    } else if contains_text(lines[from], TEST_KEYWORD@) {
        Some(from)
    } else {
        first_test_line(lines, from + 1)
    }
}

/// `cmd` after the lines were tried in order: with the arguments that the
/// first line holding the test keyword gives, or unchanged where none does.
pub open spec fn populated_from_lines(cmd: InvocationView, lines: Seq<Seq<char>>) -> InvocationView {
    match first_test_line(lines, 0) {
        Some(i) => populated(cmd, extracted_commands(lines[i])),
        None => cmd,
    }
}

/// Tries `lines` in order until one holds the test keyword, and adds to
/// `cmd` the arguments which that line gives.
pub fn populate_from_lines(lines: &Vec<String>, cmd: &mut Invocation) -> (found: bool)
    requires
        patterns_accepted(),
    ensures
        found == first_test_line(lines.deep_view(), 0) is Some,
        final(cmd)@ == populated_from_lines(old(cmd)@, lines.deep_view()),
{
    let mut i: usize = 0;
    while i < lines.len()
        invariant
            i <= lines.len(),
            patterns_accepted(),
            cmd@ == old(cmd)@,
            first_test_line(lines.deep_view(), 0) == first_test_line(lines.deep_view(), i as int),
        decreases lines.len() - i,
    {
        if try_to_populate_command(lines[i].as_str(), cmd) {
            return true;
        }
        i += 1;
    }
    false
}

/// What the caller read of a project's CI configuration.
#[derive(Debug, Clone, PartialEq, Eq)]
pub struct CiSources {
    /// The workflow files; none where the project has no workflow directory.
    pub github: Option<Vec<github::WorkflowFile>>,
    /// The pipeline file at the project's root.
    pub gitlab: ProviderFile<gitlab::Pipeline>,
    /// The Travis file at the project's root.
    pub travis: ProviderFile<travis::Workflow>,
}

/// The workflow files as a value.
pub open spec fn github_files(sources: &CiSources) -> Option<Seq<github::WorkflowFile>> {
    match sources.github {
        Some(files) => Some(files@),
        None => None,
    }
}

/// The invocation that a project's CI configuration gives: what the first
/// provider that finds one gives, the providers taken in a fixed order; the
/// base invocation where none finds one.
pub open spec fn resolved_invocation(sources: &CiSources, base: InvocationView) -> InvocationView {
    match github::github_discovery(github_files(sources), base) {
        Discovery::Found(cmd) => cmd,
        _ => match gitlab::gitlab_discovery(&sources.gitlab, base) {
            Discovery::Found(cmd) => cmd,
            _ => match travis::travis_discovery(&sources.travis, base) {
                Discovery::Found(cmd) => cmd,
                _ => base,
            },
        },
    }
}

/// Resolves the invocation with which the coverage tool is spawned for a
/// project: each provider is asked in turn, and the default stands where
/// none answers.
pub fn spawn_tarpaulin(
    root: &str,
    jobs: Option<&usize>,
    context: &Context,
    spec: &CrateSpec,
    sources: &CiSources,
) -> (cmd: Invocation)
    requires
        patterns_accepted(),
    ensures
        cmd@ == resolved_invocation(
            sources,
            base_invocation(root@, jobs_value(jobs), context, spec),
        ),
{
    let files = match &sources.github {
        Some(files) => Some(files),
        None => None,
    };
    match github::get_command(root, jobs, context, spec, files) {
        Ok(cmd) => {
            return cmd;
        },
        Err(_) => {},
    }
    match gitlab::get_command(root, jobs, context, spec, &sources.gitlab) {
        Ok(cmd) => {
            return cmd;
        },
        Err(_) => {},
    }
    match travis::get_command(root, jobs, context, spec, &sources.travis) {
        Ok(cmd) => {
            return cmd;
        },
        Err(_) => {},
    }
    default_spawn(root, jobs, context, spec)
}

/// As `spawn_tarpaulin`, where the engine accepts both patterns of the
/// extraction; none where it does not.
pub fn try_spawn_tarpaulin(
    root: &str,
    jobs: Option<&usize>,
    context: &Context,
    spec: &CrateSpec,
    sources: &CiSources,
) -> (out: Option<Invocation>)
    ensures
        patterns_accepted() <==> out is Some,
        out matches Some(cmd) ==> cmd@ == resolved_invocation(
            sources,
            base_invocation(root@, jobs_value(jobs), context, spec),
        ),
{
    if patterns_compile() {
        Some(spawn_tarpaulin(root, jobs, context, spec, sources))
    } else {
        None
    }
}

} // verus!
