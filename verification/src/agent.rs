//! Prompt templates, their rendering, and code-block extraction from a
//! model's formatted reply.

use vstd::prelude::*;
use vstd::string::*;
use crate::text::{chars_to_string, str_to_chars, join_with, lemma_join_with_push};

verus! {

/// The system instruction for the summarization stage, with `$` standing for
/// the target language.
pub open spec fn spec_summary_template() -> Seq<char> {
    "You are an agent dedicated to summarising video transcripts.\nYou will receive a transcript and answer with main talking points of the video first,\nfollowed by a complete summary of the transcript. Answer only in this format and translate to $:\n\n\nTalking points:\n1. ..\n2. ..\nN. ..\n\nSummary:\nSummary of the transcript\n"@
}

/// The summarization instruction template, `$` marking the target-language
/// placeholder.
pub fn summary_template() -> (r: &'static str)
    ensures
        r@ == spec_summary_template(),
{
    "You are an agent dedicated to summarising video transcripts.\nYou will receive a transcript and answer with main talking points of the video first,\nfollowed by a complete summary of the transcript. Answer only in this format and translate to $:\n\n\nTalking points:\n1. ..\n2. ..\nN. ..\n\nSummary:\nSummary of the transcript\n"
}

/// The system instruction for the JSON-translation stage, with `$` standing
/// for the target language.
pub open spec fn spec_summary_to_json_template() -> Seq<char> {
    "You are an agent dedicated to translating text to JSON. You will receive the text and return it in JSON format.\nThe format is as follows and translate the JSON values to $:\n\n\n{\n\n    \"summary\": \"Whole video summary goes here\",\n   \"talking_points\": [\n{\n   \"title\" : \"Title of the point\",\n   \"description\": \"Talking point summary\"\n },\n...\n]\n}\n\nRules:\n- Follow the specified JSON format closely\n- Wrap the JSON in a code block\n- Skip prose, return only the JSON\n- Only translate the JSON values, do not translate the keys\n"@
}

/// The JSON-translation instruction template, `$` marking the target-language
/// placeholder.
pub fn summary_to_json_template() -> (r: &'static str)
    ensures
        r@ == spec_summary_to_json_template(),
{
    "You are an agent dedicated to translating text to JSON. You will receive the text and return it in JSON format.\nThe format is as follows and translate the JSON values to $:\n\n\n{\n\n    \"summary\": \"Whole video summary goes here\",\n   \"talking_points\": [\n{\n   \"title\" : \"Title of the point\",\n   \"description\": \"Talking point summary\"\n },\n...\n]\n}\n\nRules:\n- Follow the specified JSON format closely\n- Wrap the JSON in a code block\n- Skip prose, return only the JSON\n- Only translate the JSON values, do not translate the keys\n"
}

/// `t` with every `$` replaced by `val`.
pub open spec fn subst(t: Seq<char>, val: Seq<char>) -> Seq<char>
    decreases t.len(),
{
    if t.len() == 0 {
        Seq::empty()
    } else if t[0] == '$' {
        val + subst(t.skip(1), val)
    } else {
        seq![t[0]] + subst(t.skip(1), val)
    }
}

/// Substitution over a template extended by one character.
pub proof fn lemma_subst_push(t: Seq<char>, val: Seq<char>, c: char)
    ensures
        subst(t.push(c), val) == subst(t, val) + (if c == '$' {
            val
        } else {
            seq![c]
        }),
    decreases t.len(),
{
    let tail: Seq<char> = if c == '$' {
        val
    } else {
        seq![c]
    };
    if t.len() == 0 {
        assert(t.push(c)[0] == c);
        assert(t.push(c).skip(1) =~= Seq::<char>::empty());
        assert(subst(Seq::<char>::empty(), val) == Seq::<char>::empty());
        assert(subst(t.push(c), val) =~= subst(t, val) + tail);
    } else {
        assert(t.push(c)[0] == t[0]);
        assert(t.push(c).skip(1) =~= t.skip(1).push(c));
        lemma_subst_push(t.skip(1), val, c);
        if t[0] == '$' {
            assert(subst(t.push(c), val) == val + (subst(t.skip(1), val) + tail));
            assert(val + (subst(t.skip(1), val) + tail) =~= (val + subst(t.skip(1), val)) + tail);
        } else {
            assert(subst(t.push(c), val) == seq![t[0]] + (subst(t.skip(1), val) + tail));
            assert(seq![t[0]] + (subst(t.skip(1), val) + tail) =~= (seq![t[0]] + subst(
                t.skip(1),
                val,
            )) + tail);
        }
    }
}

/// `template` with every `$` replaced by `lang`.
fn render_template(template: &str, lang: &str) -> (r: String)
    ensures
        r@ == subst(template@, lang@),
{
    let tv = str_to_chars(template);
    let lv = str_to_chars(lang);
    let mut out: Vec<char> = Vec::new();
    let n: usize = tv.len();
    let mut i: usize = 0;
    while i < n
        invariant
            i <= n,
            n == tv@.len(),
            tv@ == template@,
            lv@ == lang@,
            out@ == subst(tv@.take(i as int), lv@),
        decreases n - i,
    {
        let c = tv[i];
        if c == '$' {
            out.extend_from_slice(lv.as_slice());
        } else {
            out.push(c);
        }
        proof {
            lemma_subst_push(tv@.take(i as int), lv@, tv@[i as int]);
            assert(tv@.take(i as int + 1) =~= tv@.take(i as int).push(tv@[i as int]));
        }
        i += 1;
    }
    proof {
        assert(tv@.take(n as int) =~= tv@);
    }
    chars_to_string(&out)
}

/// The summarization system instruction rendered for a target language.
pub fn get_summary_prompt(lang: &str) -> (r: String)
    ensures
        r@ == subst(spec_summary_template(), lang@),
{
    render_template(summary_template(), lang)
}

/// The JSON-translation system instruction rendered for a target language.
pub fn get_summary_to_json_prompt(lang: &str) -> (r: String)
    ensures
        r@ == subst(spec_summary_to_json_template(), lang@),
{
    render_template(summary_to_json_template(), lang)
}

/// A triple-backtick fence begins at position `i` of `s`.
pub open spec fn has_fence_at(s: Seq<char>, i: int) -> bool {
    0 <= i && i + 3 <= s.len() && s[i] == '`' && s[i + 1] == '`' && s[i + 2] == '`'
}

/// `s` holds a triple-backtick fence somewhere.
pub open spec fn has_fence(s: Seq<char>) -> bool {
    exists|i: int| has_fence_at(s, i)
}

/// Blanks stripped from the front of a line before the fence test.
pub open spec fn is_line_space(c: char) -> bool {
    c == ' ' || c == '\t' || c == '\r'
}

/// `s` without its leading blanks.
pub open spec fn trim_start_spec(s: Seq<char>) -> Seq<char>
    decreases s.len(),
{
    if s.len() == 0 {
        s
    } else if is_line_space(s[0]) {
        trim_start_spec(s.skip(1))
    } else {
        s
    }
}

/// A line that, after leading blanks, begins with the triple-backtick fence.
pub open spec fn is_fence_line(s: Seq<char>) -> bool {
    has_fence_at(trim_start_spec(s), 0)
}

/// A line with a trailing carriage return removed.
pub open spec fn strip_cr(line: Seq<char>) -> Seq<char> {
    if line.len() > 0 && line[line.len() - 1] == '\r' {
        line.take(line.len() - 1)
    } else {
        line
    }
}

/// The lines of `s`: split at each newline, a carriage return just before a
/// newline removed, and no final empty line for a trailing newline.
pub open spec fn lines_of(s: Seq<char>) -> Seq<Seq<char>>
    decreases s.len(),
{
    if s.len() == 0 {
        Seq::empty()
    } else if s[0] == '\n' {
        seq![Seq::<char>::empty()] + lines_of(s.skip(1))
    } else if s.len() >= 2 && s[0] == '\r' && s[1] == '\n' {
        seq![Seq::<char>::empty()] + lines_of(s.skip(2))
    } else {
        let rest = lines_of(s.skip(1));
        if rest.len() == 0 {
            seq![seq![s[0]]]
        } else {
            seq![seq![s[0]] + rest[0]] + rest.skip(1)
        }
    }
}

proof fn lemma_strip_cr_cons(c: char, t: Seq<char>)
    requires
        t.len() > 0 || c != '\r',
    ensures
        strip_cr(seq![c] + t) == seq![c] + strip_cr(t),
{
    let u = seq![c] + t;
    if t.len() == 0 {
        assert(u.len() == 1 && u[0] == c);
        assert(strip_cr(u) == u);
        assert(u =~= seq![c] + strip_cr(t));
    } else {
        assert(u[u.len() - 1] == t[t.len() - 1]);
        if t[t.len() - 1] == '\r' {
            assert(u.take(u.len() - 1) =~= seq![c] + t.take(t.len() - 1));
        }
    }
}

/// Splitting off the first line: `k` is the index of the first newline.
proof fn lemma_lines_of_split(s: Seq<char>, k: int)
    requires
        0 <= k < s.len(),
        s[k] == '\n',
        forall|j: int| 0 <= j < k ==> s[j] != '\n',
    ensures
        lines_of(s) == seq![strip_cr(s.take(k))] + lines_of(s.skip(k + 1)),
    decreases k,
{
    if k == 0 {
        assert(strip_cr(s.take(0)) =~= Seq::<char>::empty());
        assert(seq![strip_cr(s.take(0))] =~= seq![Seq::<char>::empty()]);
    } else if k == 1 && s[0] == '\r' {
        assert(s.len() >= 2 && s[1] == '\n');
        assert(lines_of(s) == seq![Seq::<char>::empty()] + lines_of(s.skip(2)));
        assert(s.take(1) =~= seq!['\r']);
        assert(strip_cr(s.take(1)) =~= Seq::<char>::empty());
    } else {
        assert(s[0] != '\n');
        assert(!(s.len() >= 2 && s[0] == '\r' && s[1] == '\n')) by {
            if s.len() >= 2 && s[1] == '\n' {
                assert(k == 1);
            }
        }
        let s1 = s.skip(1);
        assert forall|j: int| 0 <= j < k - 1 implies s1[j] != '\n' by {
            assert(s1[j] == s[j + 1]);
        }
        assert(s1[k - 1] == s[k]);
        lemma_lines_of_split(s1, k - 1);
        let rest = lines_of(s1);
        assert(rest == seq![strip_cr(s1.take(k - 1))] + lines_of(s1.skip(k)));
        assert(rest.len() > 0);
        assert(rest[0] == strip_cr(s1.take(k - 1)));
        assert(lines_of(s) == seq![seq![s[0]] + rest[0]] + rest.skip(1));
        // the first line assembled from the head character
        let t = s1.take(k - 1);
        if t.len() == 0 {
            assert(k == 1);
            assert(s[0] != '\r');
        }
        lemma_strip_cr_cons(s[0], t);
        assert(seq![s[0]] + t =~= s.take(k));
        assert(seq![s[0]] + rest[0] == strip_cr(s.take(k)));
        // the remaining lines
        assert(rest.skip(1) =~= lines_of(s1.skip(k)));
        assert(s1.skip(k) =~= s.skip(k + 1));
        assert(lines_of(s) =~= seq![strip_cr(s.take(k))] + lines_of(s.skip(k + 1)));
    }
}

/// Text without a newline is a single line.
proof fn lemma_lines_of_no_nl(s: Seq<char>)
    requires
        s.len() > 0,
        forall|j: int| 0 <= j < s.len() ==> s[j] != '\n',
    ensures
        lines_of(s) == seq![s],
    decreases s.len(),
{
    assert(s[0] != '\n');
    if s.len() >= 2 {
        assert(s[1] != '\n');
    }
    let s1 = s.skip(1);
    if s1.len() == 0 {
        assert(s1 =~= Seq::<char>::empty());
        assert(lines_of(s1) == Seq::<Seq<char>>::empty());
        assert(lines_of(s) == seq![seq![s[0]]]);
        assert(seq![s[0]] =~= s);
        assert(lines_of(s) =~= seq![s]);
    } else {
        assert forall|j: int| 0 <= j < s1.len() implies s1[j] != '\n' by {
            assert(s1[j] == s[j + 1]);
        }
        lemma_lines_of_no_nl(s1);
        assert(lines_of(s) == seq![seq![s[0]] + s1] + lines_of(s1).skip(1));
        assert(seq![s[0]] + s1 =~= s);
        assert(lines_of(s1).skip(1) =~= Seq::<Seq<char>>::empty());
        assert(lines_of(s) =~= seq![s]);
    }
}

/// The lines kept by the toggling fence scan: a fence line flips the flag and
/// is dropped; other lines are kept exactly while the flag is on.
pub open spec fn collect_block_lines(lines: Seq<Seq<char>>, inside: bool) -> Seq<Seq<char>>
    decreases lines.len(),
{
    if lines.len() == 0 {
        Seq::empty()
    } else if is_fence_line(lines[0]) {
        collect_block_lines(lines.skip(1), !inside)
    } else if inside {
        seq![lines[0]] + collect_block_lines(lines.skip(1), inside)
    } else {
        collect_block_lines(lines.skip(1), inside)
    }
}

/// What code-block extraction returns: fence-free text unchanged, otherwise
/// the lines kept by the fence scan joined with newlines.
pub open spec fn extract_spec(s: Seq<char>) -> Seq<char> {
    if !has_fence(s) {
        s
    } else {
        join_with(collect_block_lines(lines_of(s), false), seq!['\n'])
    }
}

/// Extraction leaves fence-free text unchanged, and so is idempotent on it.
pub proof fn lemma_extract_idempotent(x: Seq<char>)
    requires
        !has_fence(x),
    ensures
        extract_spec(x) == x,
        extract_spec(extract_spec(x)) == extract_spec(x),
{
}

fn is_space(c: char) -> (r: bool)
    ensures
        r == is_line_space(c),
{
    c == ' ' || c == '\t' || c == '\r'
}

fn contains_fence(v: &Vec<char>) -> (r: bool)
    ensures
        r == has_fence(v@),
{
    let n: usize = v.len();
    if n < 3 {
        proof {
            assert forall|j: int| !has_fence_at(v@, j) by {}
        }
        return false;
    }
    let mut i: usize = 0;
    while i <= n - 3
        invariant
            n == v@.len(),
            3 <= n,
            i <= n - 2,
            forall|j: int| 0 <= j < i ==> !has_fence_at(v@, j),
        decreases n - i,
    {
        if v[i] == '`' && v[i + 1] == '`' && v[i + 2] == '`' {
            proof {
                assert(has_fence_at(v@, i as int));
            }
            return true;
        }
        i += 1;
    }
    proof {
        assert forall|j: int| !has_fence_at(v@, j) by {
            if 0 <= j && j + 3 <= n {
                assert(j < i);
            }
        }
    }
    false
}

/// `trim_start_spec` drops exactly the leading blanks.
proof fn lemma_trim_start_skip(s: Seq<char>, t: int)
    requires
        0 <= t <= s.len(),
        forall|j: int| 0 <= j < t ==> is_line_space(s[j]),
        t < s.len() ==> !is_line_space(s[t]),
    ensures
        trim_start_spec(s) == s.skip(t),
    decreases t,
{
    if t == 0 {
        assert(s.skip(0) =~= s);
    } else {
        assert(is_line_space(s[0]));
        let s1 = s.skip(1);
        assert forall|j: int| 0 <= j < t - 1 implies is_line_space(s1[j]) by {
            assert(s1[j] == s[j + 1]);
        }
        if t - 1 < s1.len() {
            assert(s1[t - 1] == s[t]);
        }
        lemma_trim_start_skip(s1, t - 1);
        assert(s1.skip(t - 1) =~= s.skip(t));
    }
}

fn is_fence_line_exec(line: &Vec<char>) -> (r: bool)
    ensures
        r == is_fence_line(line@),
{
    let n: usize = line.len();
    let mut t: usize = 0;
    while t < n && is_space(line[t])
        invariant
            t <= n,
            n == line@.len(),
            forall|j: int| 0 <= j < t ==> is_line_space(line@[j]),
        decreases n - t,
    {
        t += 1;
    }
    proof {
        lemma_trim_start_skip(line@, t as int);
    }
    let ghost trimmed = line@.skip(t as int);
    if n - t >= 3 {
        let hit = line[t] == '`' && line[t + 1] == '`' && line[t + 2] == '`';
        proof {
            assert(trimmed[0] == line@[t as int]);
            assert(trimmed[1] == line@[t as int + 1]);
            assert(trimmed[2] == line@[t as int + 2]);
            assert(hit == has_fence_at(trimmed, 0));
        }
        hit
    } else {
        proof {
            assert(trimmed.len() < 3);
            assert(!has_fence_at(trimmed, 0));
        }
        false
    }
}

fn split_lines(v: &Vec<char>) -> (r: Vec<Vec<char>>)
    ensures
        r@.len() == lines_of(v@).len(),
        forall|i: int| 0 <= i < r@.len() ==> r@[i]@ == lines_of(v@)[i],
{
    let n: usize = v.len();
    let mut r: Vec<Vec<char>> = Vec::new();
    let mut cur: Vec<char> = Vec::new();
    let mut start: usize = 0;
    let mut i: usize = 0;
    let ghost mut done: Seq<Seq<char>> = Seq::empty();
    proof {
        assert(v@.skip(0) =~= v@);
        assert(done + lines_of(v@) =~= lines_of(v@));
    }
    while i < n
        invariant
            start <= i <= n,
            n == v@.len(),
            cur@ == v@.subrange(start as int, i as int),
            forall|j: int| start <= j < i ==> v@[j] != '\n',
            done.len() == r@.len(),
            forall|t: int| 0 <= t < done.len() ==> r@[t]@ == done[t],
            lines_of(v@) == done + lines_of(v@.skip(start as int)),
        decreases n - i,
    {
        let c = v[i];
        if c == '\n' {
            let ghost s = v@.skip(start as int);
            proof {
                assert forall|j: int| 0 <= j < i - start implies s[j] != '\n' by {
                    assert(s[j] == v@[start + j]);
                }
                assert(s[i - start] == v@[i as int]);
                lemma_lines_of_split(s, i as int - start as int);
                assert(s.take(i - start) =~= cur@);
                assert(s.skip(i - start + 1) =~= v@.skip(i as int + 1));
            }
            let ghost raw = cur@;
            if cur.len() > 0 && cur[cur.len() - 1] == '\r' {
                cur.pop();
            }
            proof {
                assert(cur@ =~= strip_cr(raw));
            }
            r.push(cur);
            cur = Vec::new();
            proof {
                let line = strip_cr(raw);
                assert(lines_of(v@) =~= done + (seq![line] + lines_of(v@.skip(i as int + 1))));
                done = done.push(line);
                assert(lines_of(v@) =~= done + lines_of(v@.skip(i as int + 1)));
                assert(cur@ =~= v@.subrange(i as int + 1, i as int + 1));
            }
            start = i + 1;
        } else {
            cur.push(c);
            proof {
                assert(cur@ =~= v@.subrange(start as int, i as int + 1));
            }
        }
        i += 1;
    }
    if cur.len() > 0 {
        let ghost s = v@.skip(start as int);
        proof {
            assert(s =~= cur@);
            assert forall|j: int| 0 <= j < s.len() implies s[j] != '\n' by {
                assert(s[j] == v@[start + j]);
            }
            lemma_lines_of_no_nl(s);
        }
        r.push(cur);
        proof {
            done = done.push(s);
            assert(lines_of(v@) =~= done);
        }
    } else {
        proof {
            assert(v@.skip(start as int) =~= Seq::<char>::empty());
            assert(lines_of(Seq::<char>::empty()) =~= Seq::<Seq<char>>::empty());
            assert(lines_of(v@) =~= done);
        }
    }
    r
}

fn assemble_block(lines: &Vec<Vec<char>>) -> (out: Vec<char>)
    ensures
        out@ == join_with(collect_block_lines(lines.deep_view(), false), seq!['\n']),
{
    let ghost all = lines.deep_view();
    proof {
        assert(all.len() == lines@.len());
        assert forall|j: int| 0 <= j < all.len() implies all[j] == lines@[j]@ by {
            assert(all[j] == lines@[j].deep_view());
        }
    }
    let n: usize = lines.len();
    let mut out: Vec<char> = Vec::new();
    let mut inside: bool = false;
    let mut any: bool = false;
    let ghost mut acc: Seq<Seq<char>> = Seq::empty();
    let mut i: usize = 0;
    proof {
        assert(all.skip(0) =~= all);
        assert(acc + collect_block_lines(all, false) =~= collect_block_lines(all, false));
    }
    while i < n
        invariant
            i <= n,
            n == lines@.len(),
            all == lines.deep_view(),
            all.len() == lines@.len(),
            forall|j: int| 0 <= j < all.len() ==> all[j] == lines@[j]@,
            any == (acc.len() > 0),
            out@ == join_with(acc, seq!['\n']),
            collect_block_lines(all, false) == acc + collect_block_lines(
                all.skip(i as int),
                inside,
            ),
        decreases n - i,
    {
        let ghost rem = all.skip(i as int);
        proof {
            assert(rem[0] == all[i as int]);
            assert(rem.skip(1) =~= all.skip(i as int + 1));
        }
        let fence = is_fence_line_exec(&lines[i]);
        if fence {
            inside = !inside;
            proof {
                assert(collect_block_lines(rem, !inside) == collect_block_lines(
                    all.skip(i as int + 1),
                    inside,
                ));
            }
        } else if inside {
            if any {
                out.push('\n');
            }
            let ghost before = out@;
            let line = &lines[i];
            let m: usize = line.len();
            let mut j: usize = 0;
            while j < m
                invariant
                    j <= m,
                    m == line@.len(),
                    out@ == before + line@.take(j as int),
                decreases m - j,
            {
                out.push(line[j]);
                proof {
                    assert(before + line@.take(j as int + 1) =~= (before + line@.take(
                        j as int,
                    )).push(line@[j as int]));
                }
                j += 1;
            }
            proof {
                assert(line@.take(m as int) =~= line@);
                lemma_join_with_push(acc, seq!['\n'], line@);
                if acc.len() == 0 {
                    assert(before =~= Seq::<char>::empty());
                    assert(out@ =~= join_with(acc.push(line@), seq!['\n']));
                } else {
                    assert(out@ =~= join_with(acc, seq!['\n']) + seq!['\n'] + line@);
                    assert(out@ =~= join_with(acc.push(line@), seq!['\n']));
                }
                assert(collect_block_lines(rem, inside) == seq![all[i as int]]
                    + collect_block_lines(all.skip(i as int + 1), inside));
                acc = acc.push(line@);
                assert(acc + collect_block_lines(all.skip(i as int + 1), inside)
                    =~= acc.drop_last() + (seq![all[i as int]] + collect_block_lines(
                    all.skip(i as int + 1),
                    inside,
                )));
            }
            any = true;
        } else {
            proof {
                assert(collect_block_lines(rem, inside) == collect_block_lines(
                    all.skip(i as int + 1),
                    inside,
                ));
            }
        }
        i += 1;
    }
    proof {
        assert(all.skip(n as int) =~= Seq::<Seq<char>>::empty());
        assert(collect_block_lines(Seq::<Seq<char>>::empty(), inside)
            =~= Seq::<Seq<char>>::empty());
        assert(collect_block_lines(all, false) =~= acc);
    }
    out
}

/// The code-block payload of `text`: text without a fence comes back
/// unchanged; otherwise the lines between toggling fence lines, joined with
/// newlines.
pub fn extract_codeblock(text: &str) -> (r: String)
    ensures
        r@ == extract_spec(text@),
{
    let chars = str_to_chars(text);
    if !contains_fence(&chars) {
        return text.to_owned();
    }
    let lines = split_lines(&chars);
    proof {
        assert(lines.deep_view().len() == lines@.len());
        assert forall|j: int| 0 <= j < lines@.len() implies lines.deep_view()[j] == lines@[j]@ by {
            assert(lines.deep_view()[j] == lines@[j].deep_view());
        }
        assert(lines.deep_view() =~~= lines_of(text@));
    }
    let out = assemble_block(&lines);
    chars_to_string(&out)
}

} // verus!
