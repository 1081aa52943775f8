//! What `cargo` is asked of a registry, and what its answers mean.
use crate::command::{decode, lossy_text, texts, CommandOutcome};
use crate::text::{
    chars_of, contains, find_char, first_word, law_first_word, law_occurs, law_split, lemma_position,
    lemma_trim_end_stops, occurs, position, skip_space,
    skip_space_back, skip_word, split, stands_at, trim, trim_end, trim_start, trimmed, until_space,
    white_space,
};
use vstd::prelude::*;

verus! {

/// The version that one line of `cargo info` states: the first word after
/// `version:`, if there is one.
pub open spec fn stated_version(line: Seq<char>) -> Option<Seq<char>> {
    let t = trimmed(line);
    if "version:"@.is_prefix_of(t) && first_word(t.skip("version:"@.len() as int)).len() > 0 {
        Some(first_word(t.skip("version:"@.len() as int)))
    } else {
        None
    }
}

/// The version that the first of `lines` to state one states.
pub open spec fn first_stated(lines: Seq<Seq<char>>) -> Option<Seq<char>>
    decreases lines.len(),
{
    if lines.len() == 0 {
        None
    } else if stated_version(lines[0]) is Some {
        stated_version(lines[0])
    } else {
        first_stated(lines.drop_first())
    }
}

/// The published version that the output of `cargo info` states.
pub open spec fn published_version(stdout: Seq<char>) -> Option<Seq<char>> {
    first_stated(split(stdout, '\n'))
}

/// `version` as a text, where there is one.
pub open spec fn optional_text(version: Option<String>) -> Option<Seq<char>> {
    match version {
        Some(v) => Some(v@),
        None => None,
    }
}

/// The published version that the output of `cargo info` states: the first
/// word after `version:` on the first line that starts so and has one.
pub fn parse_published_version_from_output(stdout: &str) -> (r: Option<String>)
    ensures
        optional_text(r) == published_version(stdout@),
        match r {
            Some(version) => published_version(stdout@) == Some(version@),
            None => published_version(stdout@) is None,
        },
{
    let chars = chars_of(stdout);
    let key = chars_of("version:");
    let n: usize = chars.len();
    let mut lo: usize = 0;
    assert(chars@.subrange(0, n as int) =~= stdout@);
    loop
        invariant
            lo <= n == chars@.len(),
            chars@ == stdout@,
            key@ == "version:"@,
            published_version(stdout@) == first_stated(
                split(chars@.subrange(lo as int, n as int), '\n'),
            ),
        decreases n - lo,
    {
        let ghost rest = chars@.subrange(lo as int, n as int);
        let hi: usize = find_char(&chars, lo, n, '\n');
        let start: usize = skip_space(&chars, lo, hi);
        let end: usize = skip_space_back(&chars, start, hi);
        let ghost line = chars@.subrange(lo as int, hi as int);
        let ghost t = chars@.subrange(start as int, end as int);
        proof {
            lemma_position(rest, '\n');
            assert(t == trimmed(line));
            assert(split(rest, '\n')[0] =~= line);
        }
        if stands_at(&chars, start, end, &key) {
            let from: usize = skip_space(&chars, start + key.len(), end);
            let to: usize = skip_word(&chars, from, end);
            proof {
                assert(t.subrange(0, key@.len() as int) =~= key@);
                assert(t.skip(key@.len() as int) =~= chars@.subrange(
                    start + key@.len(),
                    end as int,
                ));
            }
            if from < to {
                return Some(stdout.substring_char(from, to).to_owned());
            }
        } else {
            assert(key@.is_prefix_of(t) ==> chars@.subrange(start as int, start + key@.len())
                =~= t.subrange(0, key@.len() as int));
        }
        if hi == n {
            proof {
                assert(split(rest, '\n').drop_first() =~= Seq::empty());
                assert(first_stated(Seq::empty()) is None);
            }
            return None;
        }
        proof {
            assert(split(rest, '\n').drop_first() =~= split(
                rest.subrange(position(rest, '\n') + 1, rest.len() as int),
                '\n',
            ));
            assert(rest.subrange(position(rest, '\n') + 1, rest.len() as int) =~= chars@.subrange(
                hi + 1,
                n as int,
            ));
        }
        lo = hi + 1;
    }
}

/// What a registry query came to: a published version, none, or a failure.
pub type Reply = Result<Option<String>, String>;

/// A reply as texts.
pub open spec fn reply_texts(reply: Reply) -> Result<Option<Seq<char>>, Seq<char>> {
    match reply {
        Ok(version) => Ok(optional_text(version)),
        Err(error) => Err(error@),
    }
}

/// What the end of `cargo info` means, given the texts it printed: a success
/// is read for the version, a failure that speaks of an unknown crate means
/// that there is none, and any other failure is passed on.
pub open spec fn answer(success: bool, stdout: Seq<char>, stderr: Seq<char>) -> Result<
    Option<Seq<char>>,
    Seq<char>,
> {
    if success {
        Ok(published_version(stdout))
    } else if occurs("could not find"@, stderr) || occurs("not found"@, stderr) {
        Ok(None)
    } else {
        Err(trimmed(stderr))
    }
}

/// The reply in the end of `cargo info`.
pub open spec fn reply_in(outcome: CommandOutcome) -> Result<Option<Seq<char>>, Seq<char>> {
    match outcome {
        CommandOutcome::NotRun { error } => Err("Failed to execute `cargo info`: "@ + error@),
        CommandOutcome::Exited { success, stdout, stderr } => answer(
            success,
            lossy_text(stdout@),
            lossy_text(stderr@),
        ),
    }
}

/// The arguments by which `cargo` is asked what `registry` holds of `name`.
pub fn query_args(name: &str, registry: &str) -> (r: Vec<String>)
    ensures
        texts(r@) == seq!["info"@, "-q"@, "--registry"@, registry@, name@],
{
    let r = vec![
        "info".to_owned(),
        "-q".to_owned(),
        "--registry".to_owned(),
        registry.to_owned(),
        name.to_owned(),
    ];
    assert(texts(r@) =~= seq!["info"@, "-q"@, "--registry"@, registry@, name@]);
    r
}

/// What the end of `cargo info` means, given the texts it printed.
pub fn read_answer(success: bool, stdout: &str, stderr: &str) -> (r: Reply)
    ensures
        reply_texts(r) == answer(success, stdout@, stderr@),
        match r {
            Ok(Some(version)) => success && published_version(stdout@) == Some(version@),
            Ok(None) => success ==> published_version(stdout@) is None,
            Err(error) => !success && error@ == trimmed(stderr@),
        },
        !success ==> (r is Ok <==> occurs("could not find"@, stderr@) || occurs(
            "not found"@,
            stderr@,
        )),
{
    if success {
        Ok(parse_published_version_from_output(stdout))
    } else if contains(stderr, "could not find") || contains(stderr, "not found") {
        Ok(None)
    } else {
        Err(trim(stderr))
    }
}

/// The reply in the end of `cargo info`.
pub fn query_registry_published_version(outcome: &CommandOutcome) -> (r: Reply)
    ensures
        reply_texts(r) == reply_in(*outcome),
        match r {
            Ok(Some(version)) => reply_in(*outcome) matches Ok(Some(text)) && text == version@,
            Ok(None) => reply_in(*outcome) matches Ok(None),
            Err(error) => reply_in(*outcome) matches Err(text) && text == error@,
        },
        r matches Ok(Some(version)) ==> (*outcome matches CommandOutcome::Exited { stdout, .. }
            && version@.len() <= stdout@.len()),
{
    match outcome {
        CommandOutcome::NotRun { error } => Err(
            "Failed to execute `cargo info`: ".to_owned().concat(error.as_str()),
        ),
        CommandOutcome::Exited { success, stdout, stderr } => {
            let out = decode(stdout);
            let err = decode(stderr);
            proof {
                law_published_version_is_a_word(out@);
            }
            read_answer(*success, out.as_str(), err.as_str())
        },
    }
}

proof fn lemma_occurs(s: Seq<char>, i: int, j: int)
    requires
        0 <= i <= j <= s.len(),
    ensures
        occurs(s.subrange(i, j), s),
{
    assert(s.subrange(i, i + s.subrange(i, j).len()) == s.subrange(i, j));
}

/// A part of a part is a part.
proof fn lemma_occurs_transitive(a: Seq<char>, b: Seq<char>, c: Seq<char>)
    requires
        occurs(a, b),
        occurs(b, c),
    ensures
        occurs(a, c),
{
    let i = choose|i: int|
        0 <= i <= b.len() - a.len() && #[trigger] b.subrange(i, i + a.len()) == a;
    let j = choose|j: int|
        0 <= j <= c.len() - b.len() && #[trigger] c.subrange(j, j + b.len()) == b;
    assert(c.subrange(j + i, j + i + a.len()) =~= a);
}

/// Where the text starts that is left without the white space at the front.
proof fn lemma_trim_start(s: Seq<char>) -> (i: int)
    ensures
        0 <= i <= s.len(),
        trim_start(s) == s.subrange(i, s.len() as int),
        forall|k: int| 0 <= k < i ==> white_space(#[trigger] s[k]),
    decreases s.len(),
{
    if s.len() > 0 && white_space(s[0]) {
        let i = lemma_trim_start(s.drop_first());
        assert forall|k: int| 0 <= k < i + 1 implies white_space(#[trigger] s[k]) by {
            if k > 0 {
                assert(white_space(s.drop_first()[k - 1]));
            }
        }
        assert(s.drop_first().subrange(i, s.len() - 1) =~= s.subrange(i + 1, s.len() as int));
        i + 1
    } else {
        assert(s.subrange(0, s.len() as int) =~= s);
        0
    }
}

/// Where the text ends that is left without the white space at the back.
proof fn lemma_trim_end(s: Seq<char>) -> (j: int)
    ensures
        0 <= j <= s.len(),
        trim_end(s) == s.subrange(0, j),
        forall|k: int| j <= k < s.len() ==> white_space(#[trigger] s[k]),
    decreases s.len(),
{
    if s.len() > 0 && white_space(s.last()) {
        let j = lemma_trim_end(s.drop_last());
        assert forall|k: int| j <= k < s.len() implies white_space(#[trigger] s[k]) by {
            if k < s.len() - 1 {
                assert(white_space(s.drop_last()[k]));
            }
        }
        assert(s.drop_last().subrange(0, j) =~= s.subrange(0, j));
        j
    } else {
        assert(s.subrange(0, s.len() as int) =~= s);
        s.len() as int
    }
}

proof fn lemma_until_space(s: Seq<char>)
    ensures
        until_space(s).len() <= s.len(),
        until_space(s) == s.subrange(0, until_space(s).len() as int),
        until_space(s).len() < s.len() ==> white_space(s[until_space(s).len() as int]),
        forall|i: int| 0 <= i < until_space(s).len() ==> !white_space(#[trigger] until_space(s)[i]),
    decreases s.len(),
{
    if s.len() > 0 && !white_space(s[0]) {
        let rest = s.drop_first();
        lemma_until_space(rest);
        assert forall|i: int| 0 <= i < until_space(s).len() implies !white_space(
            #[trigger] until_space(s)[i],
        ) by {
            if i > 0 {
                assert(until_space(s)[i] == until_space(rest)[i - 1]);
            }
        }
        assert(until_space(s) =~= s.subrange(0, until_space(s).len() as int));
    }
}

/// A version that a line states is a single word of that line: it stands in
/// the line, is not empty and holds no white space. Before it, the line holds
/// `version:` with nothing but white space before and after; after it, the
/// line ends or goes on with white space.
pub proof fn law_stated_version_is_a_word(line: Seq<char>)
    ensures
        stated_version(line) matches Some(v) ==> {
            &&& exists|at: int, from: int| #[trigger] stands_whole(line, at, from, v)
            &&& occurs(v, line)
            &&& 0 < v.len() <= line.len()
            &&& forall|i: int| 0 <= i < v.len() ==> !white_space(#[trigger] v[i])
        },
{
    let front = trim_start(line);
    let t = trimmed(line);
    let start = lemma_trim_start(line);
    let end = lemma_trim_end(front);
    if "version:"@.is_prefix_of(t) {
        let n = "version:"@.len() as int;
        let rest = t.skip(n);
        let skipped = lemma_trim_start(rest);
        let word = first_word(rest);
        lemma_until_space(trim_start(rest));
        let at = start + n + skipped;
        assert(word =~= line.subrange(at, at + word.len()));
        lemma_occurs(line, at, at + word.len());
        assert(front.subrange(0, end) == t);
        assert("version:"@ =~= line.subrange(start, start + n)) by {
            assert(t.subrange(0, n) == "version:"@);
            assert(t.subrange(0, n) =~= line.subrange(start, start + n));
        }
        assert forall|k: int| start + n <= k < at implies white_space(#[trigger] line[k]) by {
            assert(white_space(rest[k - start - n]));
        }
        let after = at + word.len();
        if after < start + end {
            assert(line[after] == trim_start(rest)[word.len() as int]);
        } else if after < line.len() {
            assert(white_space(front[after - start]));
        }
        if word.len() > 0 {
            assert(stands_whole(line, start, at, word));
        }
    }
}

/// Whether `v` stands in `line` from `from` on as a whole word, after
/// `version:` at `at` and white space only.
pub open spec fn stands_whole(line: Seq<char>, at: int, from: int, v: Seq<char>) -> bool {
    let n = "version:"@.len() as int;
    &&& 0 <= at && at + n <= from && from + v.len() <= line.len()
    &&& line.subrange(at, at + n) == "version:"@
    &&& line.subrange(from, from + v.len()) == v
    &&& forall|k: int| 0 <= k < at || at + n <= k < from ==> white_space(#[trigger] line[k])
    &&& from + v.len() < line.len() ==> white_space(line[from + v.len()])
}

/// A line that starts with `version:`, white space around it aside, states the
/// whole word that follows; what comes after that word plays no part.
pub proof fn law_stated_version(
    before: Seq<char>,
    gap: Seq<char>,
    word: Seq<char>,
    after: Seq<char>,
)
    requires
        forall|i: int| 0 <= i < before.len() ==> white_space(#[trigger] before[i]),
        forall|i: int| 0 <= i < gap.len() ==> white_space(#[trigger] gap[i]),
        forall|i: int| 0 <= i < word.len() ==> !white_space(#[trigger] word[i]),
        word.len() > 0,
        after.len() > 0 ==> white_space(after[0]),
    ensures
        stated_version(before + "version:"@ + gap + word + after) == Some(word),
{
    reveal_strlit("version:");
    let key = "version:"@;
    let body = key + gap + word;
    let line = before + key + gap + word + after;
    assert(line =~= before + (body + after));
    lemma_blank_then(before, body + after);
    assert((body + after)[0] == 'v');
    assert(body.last() == word.last());
    assert(!white_space(word[word.len() - 1]));
    lemma_trim_end_stops(body, after);
    let left = trim_end(after);
    let t = trimmed(line);
    assert(t == body + left);
    assert(t.subrange(0, key.len() as int) =~= key);
    assert(t.skip(key.len() as int) =~= gap + word + left);
    assert(left.len() > 0 ==> left[0] == after[0]);
    law_first_word(gap, word, left);
}

proof fn lemma_blank_then(before: Seq<char>, s: Seq<char>)
    requires
        forall|i: int| 0 <= i < before.len() ==> white_space(#[trigger] before[i]),
        s.len() > 0,
        !white_space(s[0]),
    ensures
        trim_start(before + s) == s,
    decreases before.len(),
{
    if before.len() == 0 {
        assert(before + s =~= s);
    } else {
        let rest = before.drop_first();
        assert(white_space(before[0]));
        assert forall|i: int| 0 <= i < rest.len() implies white_space(#[trigger] rest[i]) by {
            assert(rest[i] == before[i + 1]);
        }
        lemma_blank_then(rest, s);
        assert((before + s).drop_first() =~= rest + s);
    }
}

/// The first line that states a version decides: an output gives what its
/// first line states and, where that states nothing, what the rest gives.
pub proof fn law_published_version_line_by_line(line: Seq<char>, rest: Seq<char>)
    requires
        !line.contains('\n'),
    ensures
        published_version(line) == stated_version(line),
        published_version(line + seq!['\n'] + rest) == (if stated_version(line) is Some {
            stated_version(line)
        } else {
            published_version(rest)
        }),
{
    law_split(line, '\n', rest);
    let all = split(line + seq!['\n'] + rest, '\n');
    assert(all.drop_first() =~= split(rest, '\n'));
    assert(seq![line].drop_first() =~= Seq::empty());
    assert(first_stated(Seq::empty()) is None);
}

/// A published version read from the output is a single word of it: it stands
/// in the output, is not empty and holds no white space.
pub proof fn law_published_version_is_a_word(stdout: Seq<char>)
    ensures
        published_version(stdout) matches Some(v) ==> {
            &&& occurs(v, stdout)
            &&& 0 < v.len() <= stdout.len()
            &&& forall|i: int| 0 <= i < v.len() ==> !white_space(#[trigger] v[i])
        },
    decreases stdout.len(),
{
    lemma_position(stdout, '\n');
    let lines = split(stdout, '\n');
    law_stated_version_is_a_word(lines[0]);
    let at = position(stdout, '\n');
    assert(lines[0] =~= stdout.subrange(0, at));
    lemma_occurs(stdout, 0, at);
    if let Some(v) = stated_version(lines[0]) {
        lemma_occurs_transitive(v, lines[0], stdout);
    }
    if at < stdout.len() {
        let rest = stdout.subrange(at + 1, stdout.len() as int);
        lemma_occurs(stdout, at + 1, stdout.len() as int);
        law_published_version_is_a_word(rest);
        if let Some(v) = published_version(rest) {
            lemma_occurs_transitive(v, rest, stdout);
        }
        assert(lines.drop_first() =~= split(rest, '\n'));
    } else {
        assert(lines.drop_first() =~= Seq::empty());
        assert(first_stated(Seq::empty()) is None);
    }
}

/// What the end of a query means: one that could not be run is a failure that
/// says so; one that succeeded gives the version that its output states; one
/// that failed means that there is no such crate where it says `could not
/// find` or `not found` anywhere, and else passes on what it says.
pub proof fn law_reply(outcome: CommandOutcome)
    ensures
        match outcome {
            CommandOutcome::NotRun { error } => reply_in(outcome) == Err::<
                Option<Seq<char>>,
                Seq<char>,
            >("Failed to execute `cargo info`: "@ + error@),
            CommandOutcome::Exited { success, stdout, stderr } => {
                let said = lossy_text(stderr@);
                let unknown = exists|a: Seq<char>, b: Seq<char>|
                    said == #[trigger] (a + "could not find"@ + b) || said == a + "not found"@ + b;
                &&& success ==> reply_in(outcome) == Ok::<Option<Seq<char>>, Seq<char>>(
                    published_version(lossy_text(stdout@)),
                )
                &&& !success && unknown ==> reply_in(outcome) == Ok::<
                    Option<Seq<char>>,
                    Seq<char>,
                >(None)
                &&& !success && !unknown ==> reply_in(outcome) == Err::<
                    Option<Seq<char>>,
                    Seq<char>,
                >(trimmed(said))
            },
        },
{
    if let CommandOutcome::Exited { success, stdout, stderr } = outcome {
        let said = lossy_text(stderr@);
        let (x, y) = ("could not find"@, "not found"@);
        law_occurs(Seq::empty(), x, Seq::empty(), said);
        law_occurs(Seq::empty(), y, Seq::empty(), said);
        if occurs(x, said) {
            let (a, b) = choose|a: Seq<char>, b: Seq<char>| said == #[trigger] (a + x + b);
            assert(said == a + x + b || said == a + y + b);
        } else if occurs(y, said) {
            let (a, b) = choose|a: Seq<char>, b: Seq<char>| said == #[trigger] (a + y + b);
            assert(a + x + b == a + x + b);
        }
        if exists|a: Seq<char>, b: Seq<char>|
            said == #[trigger] (a + x + b) || said == a + y + b {
            let (a, b) = choose|a: Seq<char>, b: Seq<char>|
                said == #[trigger] (a + x + b) || said == a + y + b;
            law_occurs(a, x, b, said);
            law_occurs(a, y, b, said);
        }
    }
}

} // verus!
