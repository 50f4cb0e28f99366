//! Decisions of the command-line tool: which language-model settings it
//! runs with, and where the text of a command comes from.

use vstd::prelude::*;
use crate::dashscope::opt_view;
use crate::models::{AudioFragment, ScriptLine, ScriptLineWithMeta};
use crate::script::{first_chars, take_chars};
use crate::text::{append_str, chars_of, owned, split_char, split_on, string_from_chars, str_eq, trim, trim_chars, views};

verus! {

/// The model used when none is named.
pub open spec fn default_model() -> Seq<char> {
    "qwen-plus"@
}

/// The settings of a language-model command: endpoint, key and model; an
/// endpoint and a key must be given, the model defaults to [`default_model`].
pub open spec fn llm_settings(
    endpoint: Option<Seq<char>>,
    key: Option<Seq<char>>,
    model: Option<Seq<char>>,
) -> Result<(Seq<char>, Seq<char>, Seq<char>), Seq<char>> {
    match (endpoint, key) {
        (None, _) => Err("Missing --endpoint (or set VOXFLOW_API_ENDPOINT)"@),
        (Some(_), None) => Err("Missing --key (or set VOXFLOW_API_KEY)"@),
        (Some(e), Some(k)) => Ok(
            (
                e,
                k,
                match model {
                    Some(m) => m,
                    None => default_model(),
                },
            ),
        ),
    }
}

/// The endpoint, key and model a language-model command runs with, or the
/// message that names the missing option.
pub fn llm_opts(endpoint: Option<String>, key: Option<String>, model: Option<String>) -> (r: Result<(String, String, String), String>)
    ensures
        match (r, llm_settings(opt_view(endpoint), opt_view(key), opt_view(model))) {
            (Ok((e, k, m)), Ok((se, sk, sm))) => e@ == se && k@ == sk && m@ == sm,
            (Err(msg), Err(smsg)) => msg@ == smsg,
            _ => false,
        },
{
    let e = match endpoint {
        Some(e) => e,
        None => return Err(owned("Missing --endpoint (or set VOXFLOW_API_ENDPOINT)")),
    };
    let k = match key {
        Some(k) => k,
        None => return Err(owned("Missing --key (or set VOXFLOW_API_KEY)")),
    };
    let m = match model {
        Some(m) => m,
        None => owned("qwen-plus"),
    };
    Ok((e, k, m))
}

/// Where the text of a command comes from.
#[derive(Clone, Debug, PartialEq)]
pub enum TextSource {
    /// Read it from the file at this path.
    File(String),
    /// It was given on the command line.
    Inline(String),
}

/// The source of a command's text: a file given on its own wins; text that
/// starts with `@` names a file; other text is the text itself.
pub open spec fn text_source_spec(text: Option<Seq<char>>, file: Option<Seq<char>>) -> Result<(bool, Seq<char>), Seq<char>> {
    match file {
        Some(f) => Ok((true, f)),
        None => match text {
            Some(t) => if t.len() > 0 && t[0] == '@' {
                Ok((true, t.drop_first()))
            } else {
                Ok((false, t))
            },
            None => Err("No text or file provided"@),
        },
    }
}

/// Decides where a command's text is read from; see [`text_source_spec`],
/// whose flag is true for a file.
pub fn text_source(text: Option<&str>, file: Option<&str>) -> (r: Result<TextSource, String>)
    ensures
        match (r, text_source_spec(
            match text {
                Some(t) => Some(t@),
                None => None,
            },
            match file {
                Some(f) => Some(f@),
                None => None,
            },
        )) {
            (Ok(TextSource::File(p)), Ok((true, sp))) => p@ == sp,
            (Ok(TextSource::Inline(t)), Ok((false, st))) => t@ == st,
            (Err(msg), Err(smsg)) => msg@ == smsg,
            _ => false,
        },
{
    match file {
        Some(f) => Ok(TextSource::File(owned(f))),
        None => match text {
            Some(t) => {
                let v = chars_of(t);
                if v.len() > 0 && v[0] == '@' {
                    let p = string_from_chars(&v, 1, v.len());
                    assert(v@.subrange(1, v@.len() as int) =~= t@.drop_first());
                    Ok(TextSource::File(p))
                } else {
                    Ok(TextSource::Inline(owned(t)))
                }
            },
            None => Err(owned("No text or file provided")),
        },
    }
}

/// The key for speech synthesis: the one given for it, else the language
/// model's key.
pub fn tts_api_key(tts_key: Option<String>, key: Option<String>) -> (r: Result<String, String>)
    ensures
        match (tts_key, key) {
            (Some(t), _) => r matches Ok(x) && x@ == t@,
            (None, Some(k)) => r matches Ok(x) && x@ == k@,
            (None, None) => r matches Err(m) && m@ == "Missing --key (or set VOXFLOW_API_KEY or --tts-key)"@,
        },
{
    match tts_key {
        Some(t) => Ok(t),
        None => match key {
            Some(k) => Ok(k),
            None => Err(owned("Missing --key (or set VOXFLOW_API_KEY or --tts-key)")),
        },
    }
}

// ---------------------------------------------------------------------------
// Comma-separated arguments
// ---------------------------------------------------------------------------

/// The items of a comma-separated list, each trimmed.
pub open spec fn id_list(s: Seq<char>) -> Seq<Seq<char>> {
    split_on(s, ',').map_values(|p: Seq<char>| trim(p))
}

/// Splits a comma-separated list of ids; see [`id_list`].
pub fn split_ids(s: &str) -> (r: Vec<String>)
    ensures
        views(r@) == id_list(s@),
{
    let parts = split_char(s, ',');
    let mut r: Vec<String> = Vec::new();
    let mut i: usize = 0;
    while i < parts.len()
        invariant
            i <= parts@.len(),
            views(r@) == views(parts@).take(i as int).map_values(|p: Seq<char>| trim(p)),
        decreases parts@.len() - i,
    {
        let t = trim_chars(parts[i].as_str());
        let item = string_from_chars(&t, 0, t.len());
        let ghost before = r@;
        r.push(item);
        proof {
            crate::text::lemma_views_push(before, item);
            assert(t@.subrange(0, t@.len() as int) =~= t@);
            assert(views(parts@).take(i + 1).map_values(|p: Seq<char>| trim(p)) =~= views(parts@).take(
                i as int,
            ).map_values(|p: Seq<char>| trim(p)).push(trim(parts@[i as int]@)));
        }
        i = i + 1;
    }
    proof {
        assert(views(parts@).take(i as int) =~= views(parts@));
    }
    r
}

/// A decimal digit.
pub open spec fn is_digit(c: char) -> bool {
    '0' <= c <= '9'
}

/// The value of a digit (0 for any other character).
pub open spec fn digit_value(c: char) -> nat {
    if is_digit(c) {
        (c as int - '0' as int) as nat
    } else {
        0
    }
}

/// The number the digits `d` write.
pub open spec fn digits_value(d: Seq<char>) -> nat
    decreases d.len(),
{
    if d.len() == 0 {
        0
    } else {
        10 * digits_value(d.drop_last()) + digit_value(d.last())
    }
}

/// The digits part of a number's text: without a leading `+`.
pub open spec fn unsigned_digits(t: Seq<char>) -> Seq<char> {
    if t.len() > 0 && t[0] == '+' {
        t.drop_first()
    } else {
        t
    }
}

/// Every character of `d` is a decimal digit.
pub open spec fn all_digits(d: Seq<char>) -> bool {
    forall|i: int| 0 <= i < d.len() ==> is_digit(#[trigger] d[i])
}

/// What `str::parse::<usize>` makes of `t`: an optional `+`, then one or
/// more decimal digits whose value fits a `usize`.
pub open spec fn parsed_usize(t: Seq<char>) -> Option<nat> {
    let d = unsigned_digits(t);
    if d.len() > 0 && all_digits(d) && digits_value(d) <= usize::MAX {
        Some(digits_value(d))
    } else {
        None
    }
}

proof fn lemma_digits_prefix(d: Seq<char>, k: int)
    requires
        0 <= k <= d.len(),
    ensures
        digits_value(d.take(k)) <= digits_value(d),
    decreases d.len() - k,
{
    if k < d.len() {
        assert(d.take(k + 1).drop_last() =~= d.take(k));
        lemma_digits_prefix(d, k + 1);
        assert(digits_value(d.take(k + 1)) == 10 * digits_value(d.take(k)) + digit_value(d.take(k + 1).last()));
    } else {
        assert(d.take(k) =~= d);
    }
}

/// Parses an unsigned number as `str::parse::<usize>` does; see
/// [`parsed_usize`].
pub fn parse_usize(t: &str) -> (r: Option<usize>)
    ensures
        match parsed_usize(t@) {
            Some(n) => r == Some(n as usize),
            None => r is None,
        },
{
    let v = chars_of(t);
    let n = v.len();
    let start: usize = if n > 0 && v[0] == '+' { 1 } else { 0 };
    let ghost d = unsigned_digits(t@);
    assert(v@.subrange(start as int, n as int) =~= d);
    if start == n {
        return None;
    }
    let mut val: usize = 0;
    let mut i: usize = start;
    while i < n
        invariant
            start <= i <= n,
            n == v@.len(),
            v@ == t@,
            d == v@.subrange(start as int, n as int),
            d == unsigned_digits(t@),
            d.len() > 0,
            val == digits_value(d.take(i - start)),
            forall|j: int| 0 <= j < i - start ==> is_digit(#[trigger] d[j]),
        decreases n - i,
    {
        let c = v[i];
        assert(d[i - start] == c);
        if !('0' <= c && c <= '9') {
            proof {
                assert(!is_digit(d[i - start]));
                assert(!all_digits(d));
            }
            return None;
        }
        let dg: usize = (c as u32 - '0' as u32) as usize;
        assert(d.take(i - start + 1).drop_last() =~= d.take(i - start));
        assert(digits_value(d.take(i - start + 1)) == 10 * val + dg);
        if val > (usize::MAX - dg) / 10 {
            proof {
                assert(10 * val + dg > usize::MAX) by (nonlinear_arith)
                    requires
                        val > (usize::MAX - dg) / 10,
                        dg <= 9,
                ;
                lemma_digits_prefix(d, i - start + 1);
                assert(digits_value(d) > usize::MAX);
            }
            return None;
        }
        assert(10 * val + dg <= usize::MAX) by (nonlinear_arith)
            requires
                val <= (usize::MAX - dg) / 10,
                dg <= 9,
        ;
        val = val * 10 + dg;
        i = i + 1;
    }
    assert(d.take(n - start) =~= d);
    Some(val)
}

/// The numbers among the trimmed items of `items`, in order; items that do
/// not parse are skipped.
pub open spec fn parsed_items(items: Seq<Seq<char>>) -> Seq<nat>
    decreases items.len(),
{
    if items.len() == 0 {
        seq![]
    } else {
        let prev = parsed_items(items.drop_last());
        match parsed_usize(trim(items.last())) {
            Some(k) => prev.push(k),
            None => prev,
        }
    }
}

/// The section indices of a comma-separated list: each item trimmed and
/// parsed, those that are no number skipped.
pub fn parse_section_indices(s: &str) -> (r: Vec<usize>)
    ensures
        r@.map_values(|x: usize| x as nat) == parsed_items(split_on(s@, ',')),
{
    let parts = split_char(s, ',');
    let mut r: Vec<usize> = Vec::new();
    let mut i: usize = 0;
    while i < parts.len()
        invariant
            i <= parts@.len(),
            r@.map_values(|x: usize| x as nat) == parsed_items(views(parts@).take(i as int)),
        decreases parts@.len() - i,
    {
        assert(views(parts@).take(i + 1).drop_last() =~= views(parts@).take(i as int));
        assert(views(parts@).take(i + 1).last() == parts@[i as int]@);
        let t = trim_chars(parts[i].as_str());
        let ts = string_from_chars(&t, 0, t.len());
        assert(t@.subrange(0, t@.len() as int) =~= t@);
        let ghost before = r@;
        match parse_usize(ts.as_str()) {
            Some(k) => {
                r.push(k);
                assert(r@.map_values(|x: usize| x as nat) =~= before.map_values(|x: usize| x as nat).push(
                    k as nat,
                ));
            },
            None => {},
        }
        i = i + 1;
    }
    proof {
        assert(views(parts@).take(i as int) =~= views(parts@));
    }
    r
}

/// The note a command-line revision adds to the generation instructions.
pub fn revision_note(instructions: &str) -> (r: String)
    ensures
        r@ == "REVISION REQUEST: "@ + instructions@ + "\nOnly modify the requested sections."@,
{
    let mut r = owned("REVISION REQUEST: ");
    append_str(&mut r, instructions);
    append_str(&mut r, "\nOnly modify the requested sections.");
    r
}

// ---------------------------------------------------------------------------
// Script and audio listings
// ---------------------------------------------------------------------------

/// Who speaks a line: its character, else the narrator.
pub open spec fn speaker(name: Option<Seq<char>>) -> Seq<char> {
    match name {
        Some(n) => n,
        None => "Narrator"@,
    }
}

/// The printed lines of a script listing and the section last announced:
/// each line as `[speaker] text`, preceded by a `=== title ===` header
/// (blank lines around it) whenever its section differs from the last one
/// announced.
pub open spec fn listing_state(lines: Seq<ScriptLineWithMeta>) -> (Seq<Seq<char>>, Seq<char>)
    decreases lines.len(),
{
    if lines.len() == 0 {
        (seq![], Seq::<char>::empty())
    } else {
        let st = listing_state(lines.drop_last());
        let l = lines.last();
        let (out, cur) = match l.section_title {
            Some(t) => if t@ != st.1 {
                (st.0.push("\n=== "@ + t@ + " ===\n"@), t@)
            } else {
                st
            },
            None => st,
        };
        (out.push("["@ + speaker(opt_view(l.character_name)) + "] "@ + l.text@), cur)
    }
}

/// The printed lines of a script listing; see [`listing_state`].
pub fn script_listing(lines: &[ScriptLineWithMeta]) -> (r: Vec<String>)
    ensures
        views(r@) == listing_state(lines@).0,
{
    let mut r: Vec<String> = Vec::new();
    let mut current = String::new();
    let mut i: usize = 0;
    while i < lines.len()
        invariant
            i <= lines@.len(),
            (views(r@), current@) == listing_state(lines@.take(i as int)),
        decreases lines@.len() - i,
    {
        assert(lines@.take(i + 1).drop_last() =~= lines@.take(i as int));
        assert(lines@.take(i + 1).last() == lines@[i as int]);
        let l = &lines[i];
        match &l.section_title {
            Some(t) => {
                if !str_eq(t.as_str(), current.as_str()) {
                    let mut h = owned("\n=== ");
                    append_str(&mut h, t.as_str());
                    append_str(&mut h, " ===\n");
                    let ghost before = r@;
                    r.push(h);
                    proof {
                        crate::text::lemma_views_push(before, h);
                    }
                    current = t.clone();
                }
            },
            None => {},
        }
        let mut line = owned("[");
        match &l.character_name {
            Some(n) => append_str(&mut line, n.as_str()),
            None => append_str(&mut line, "Narrator"),
        }
        append_str(&mut line, "] ");
        append_str(&mut line, l.text.as_str());
        let ghost before = r@;
        r.push(line);
        proof {
            crate::text::lemma_views_push(before, line);
        }
        i = i + 1;
    }
    assert(lines@.take(i as int) =~= lines@);
    r
}

/// Some fragment belongs to the line `id`.
pub open spec fn has_fragment(frags: Seq<AudioFragment>, id: Seq<char>) -> bool {
    exists|j: int| 0 <= j < frags.len() && (#[trigger] frags[j]).line_id@ == id
}

/// The positions of the lines that have no audio fragment, in order.
pub open spec fn missing_positions(lines: Seq<ScriptLine>, frags: Seq<AudioFragment>) -> Seq<int>
    decreases lines.len(),
{
    if lines.len() == 0 {
        seq![]
    } else {
        let prev = missing_positions(lines.drop_last(), frags);
        if has_fragment(frags, lines.last().id@) {
            prev
        } else {
            prev.push(lines.len() - 1)
        }
    }
}

fn fragment_present(frags: &[AudioFragment], id: &str) -> (b: bool)
    ensures
        b == has_fragment(frags@, id@),
{
    let mut j: usize = 0;
    while j < frags.len()
        invariant
            j <= frags@.len(),
            forall|k: int| 0 <= k < j ==> (#[trigger] frags@[k]).line_id@ != id@,
        decreases frags@.len() - j,
    {
        if str_eq(frags[j].line_id.as_str(), id) {
            return true;
        }
        j = j + 1;
    }
    false
}

/// The positions of the lines without audio; see [`missing_positions`].
/// Their number is the audio status's missing count; the others have audio.
pub fn lines_without_audio(lines: &[ScriptLine], frags: &[AudioFragment]) -> (r: Vec<usize>)
    ensures
        r@.map_values(|x: usize| x as int) == missing_positions(lines@, frags@),
        r@.len() <= lines@.len(),
{
    let mut r: Vec<usize> = Vec::new();
    let mut i: usize = 0;
    while i < lines.len()
        invariant
            i <= lines@.len(),
            r@.len() <= i,
            r@.map_values(|x: usize| x as int) == missing_positions(lines@.take(i as int), frags@),
        decreases lines@.len() - i,
    {
        assert(lines@.take(i + 1).drop_last() =~= lines@.take(i as int));
        assert(lines@.take(i + 1).last() == lines@[i as int]);
        if !fragment_present(frags, lines[i].id.as_str()) {
            let ghost before = r@;
            r.push(i);
            assert(r@.map_values(|x: usize| x as int) =~= before.map_values(|x: usize| x as int).push(
                i as int,
            ));
        }
        i = i + 1;
    }
    assert(lines@.take(i as int) =~= lines@);
    r
}

/// The note printed for a line without audio: its speaker (its character
/// id, else the narrator), its id and the first 60 characters of its text.
pub fn missing_line_note(line: &ScriptLine) -> (r: String)
    ensures
        r@ == "  ["@ + speaker(opt_view(line.character_id)) + "] "@ + line.id@ + ": "@ + first_chars(
            line.text@,
            60,
        ),
{
    let mut r = owned("  [");
    match &line.character_id {
        Some(c) => append_str(&mut r, c.as_str()),
        None => append_str(&mut r, "Narrator"),
    }
    append_str(&mut r, "] ");
    append_str(&mut r, line.id.as_str());
    append_str(&mut r, ": ");
    let head = take_chars(line.text.as_str(), 60);
    append_str(&mut r, head.as_str());
    r
}

} // verus!
