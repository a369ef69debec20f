use crate::text::{
    clean_output, cleaned, free_of_brackets_and_breaks, law_cleaned_form, law_cleaning_keeps_content,
    trimmed_form, visible,
};
use vstd::prelude::*;

verus! {

/// The sample rate, in Hz, that the recogniser takes.
pub const TARGET_SAMPLE_RATE: u32 = 16000;

/// Whether `n` samples at the recogniser's rate last less than 0.3 s.
pub open spec fn too_short(n: nat) -> bool {
    n * 10 < 3 * 16000
}

/// The transcript of a recording with no samples at all: empty.
pub fn early_transcript(n_samples: usize) -> (r: Option<String>)
    ensures
        (r is Some) <==> n_samples == 0,
        r matches Some(t) ==> t@ == Seq::<char>::empty(),
{
    if n_samples == 0 {
        Some(String::new())
    } else {
        None
    }
}

/// The transcript of a recording too short to recognise, given its length
/// at the recogniser's rate: a notice instead of text.
pub fn short_recording_transcript(n_samples: usize) -> (r: Option<String>)
    ensures
        (r is Some) <==> too_short(n_samples as nat),
        r matches Some(t) ==> t@ == "(录音时间太短)"@,
{
    if n_samples < 4800 {
        Some(String::from_str("(录音时间太短)"))
    } else {
        None
    }
}

/// The digit `d` of a hexadecimal number in lower case.
pub open spec fn hex_digit(d: nat) -> char {
    if d < 10 {
        (48 + d) as char
    } else {
        (87 + d) as char
    }
}

/// How JSON writes the character `c` inside a string: `"` and `\` and
/// the control characters below U+0020 escaped, everything else as is.
pub open spec fn json_escape(c: char) -> Seq<char> {
    let v = c as u32;
    if c == '"' {
        seq!['\\', '"']
    } else if c == '\\' {
        seq!['\\', '\\']
    } else if v == 0x08 {
        seq!['\\', 'b']
    } else if v == 0x09 {
        seq!['\\', 't']
    } else if v == 0x0a {
        seq!['\\', 'n']
    } else if v == 0x0c {
        seq!['\\', 'f']
    } else if v == 0x0d {
        seq!['\\', 'r']
    } else if v < 0x20 {
        seq!['\\', 'u', '0', '0', hex_digit(v as nat / 16), hex_digit(v as nat % 16)]
    } else {
        seq![c]
    }
}

/// The characters of `s` each escaped for a JSON string.
pub open spec fn json_escaped(s: Seq<char>) -> Seq<char>
    decreases s.len(),
{
    if s.len() == 0 {
        Seq::<char>::empty()
    } else {
        json_escaped(s.drop_last()) + json_escape(s.last())
    }
}

/// `s` as a JSON string literal.
pub open spec fn json_quoted(s: Seq<char>) -> Seq<char> {
    seq!['"'] + json_escaped(s) + seq!['"']
}

/// `s` as a JSON string literal, by `serde_json::to_string` on a `str`:
/// the characters between double quotes, with `"`, `\` and the control
/// characters below U+0020 escaped as serde_json's `format_escaped_str`
/// does (`\b \t \n \f \r` by name, the others as `\u00xx` in lower case).
/// Writing into memory cannot fail, so the error arm is never taken.
#[verifier::external_body]
fn json_string(s: &str) -> (r: String)
    ensures
        r@ == json_quoted(s@),
{
    match serde_json::to_string(s) {
        Ok(t) => t,
        Err(_) => String::new(),
    }
}

/// The request that asks the recogniser for the Chinese transcript of the
/// WAV file at `wav_path`: a JSON object with the keys in order.
pub open spec fn request_text(wav_path: Seq<char>) -> Seq<char> {
    "{\"lang\":\"zh\",\"wav\":"@ + json_quoted(wav_path) + "}"@
}

/// The request that makes the recogniser load its model.
pub open spec fn warmup_text() -> Seq<char> {
    "{\"wav\":"@ + json_quoted("WARMUP"@) + "}"@
}

/// Builds the request line for the WAV file at `wav_path`.
pub fn transcription_request(wav_path: &str) -> (r: String)
    ensures
        r@ == request_text(wav_path@),
{
    let mut req = String::from_str("{\"lang\":\"zh\",\"wav\":");
    let quoted = json_string(wav_path);
    req.append(quoted.as_str());
    req.append("}");
    req
}

/// Builds the request line that warms the recogniser up.
pub fn warmup_request() -> (r: String)
    ensures
        r@ == warmup_text(),
{
    let mut req = String::from_str("{\"wav\":");
    let quoted = json_string("WARMUP");
    req.append(quoted.as_str());
    req.append("}");
    req
}

/// What the recogniser's reply holds for the transcript: its `error` and
/// `text` members, each when it is a string.
pub struct ReplyFields {
    pub error: Option<String>,
    pub text: Option<String>,
}

pub open spec fn option_view(o: Option<String>) -> Option<Seq<char>> {
    match o {
        Some(s) => Some(s@),
        None => None,
    }
}

/// The fields by their views; `None` when the reply is not JSON.
pub open spec fn fields_view(f: Option<ReplyFields>) -> Option<(Option<Seq<char>>, Option<Seq<char>>)> {
    match f {
        Some(r) => Some((option_view(r.error), option_view(r.text))),
        None => None,
    }
}

/// What `serde_json::from_str::<serde_json::Value>` makes of a reply line,
/// read as the members `error` and `text` where they are strings; `None`
/// when the line is not JSON.
pub uninterp spec fn json_reply(line: Seq<char>) -> Option<(Option<Seq<char>>, Option<Seq<char>>)>;

/// Parses a reply line with `serde_json::from_str` into a
/// `serde_json::Value` and reads `value["error"].as_str()` and
/// `value["text"].as_str()` (each `None` unless the member exists and is a
/// string); `None` when the line is not JSON. The result is named, not
/// stated: JSON parsing takes pages.
#[verifier::external_body]
fn parse_reply(line: &str) -> (r: Option<ReplyFields>)
    ensures
        fields_view(r) == json_reply(line@),
{
    match serde_json::from_str::<serde_json::Value>(line) {
        Ok(v) => Some(
            ReplyFields {
                error: v["error"].as_str().map(String::from),
                text: v["text"].as_str().map(String::from),
            },
        ),
        Err(_) => None,
    }
}

/// The transcript a reply gives: an error when the reply is not JSON
/// (`"invalid json"`) or names an error; otherwise the cleaned text, or a
/// notice when there is no text.
pub open spec fn reply_outcome(fields: Option<(Option<Seq<char>>, Option<Seq<char>>)>) -> Result<
    Seq<char>,
    Seq<char>,
> {
    match fields {
        None => Err("invalid json"@),
        Some((Some(e), _)) => Err(e),
        Some((None, t)) => {
            let raw = match t {
                Some(x) => x,
                None => Seq::<char>::empty(),
            };
            if raw.len() == 0 {
                Ok("(未识别到语音)"@)
            } else {
                Ok(cleaned(raw))
            }
        },
    }
}

pub open spec fn result_view(r: Result<String, String>) -> Result<Seq<char>, Seq<char>> {
    match r {
        Ok(s) => Ok(s@),
        Err(e) => Err(e@),
    }
}

/// Turns the fields of a reply into the transcript, or into the error the
/// recogniser reported.
pub fn interpret_reply(fields: Option<ReplyFields>) -> (r: Result<String, String>)
    ensures
        result_view(r) == reply_outcome(fields_view(fields)),
        fields_view(fields) matches Some((None, Some(t))) ==> (t.len() > 0 ==> (r matches Ok(s)
            && s@ == cleaned(t) && free_of_brackets_and_breaks(s@) && trimmed_form(s@))),
{
    match fields {
        None => Err(String::from_str("invalid json")),
        Some(f) => match f.error {
            Some(e) => Err(e),
            None => {
                let raw = match f.text {
                    Some(t) => t,
                    None => String::new(),
                };
                if raw.as_str().is_empty() {
                    Ok(String::from_str("(未识别到语音)"))
                } else {
                    let out = clean_output(raw.as_str());
                    proof {
                        law_cleaned_form(raw@);
                    }
                    Ok(out)
                }
            },
        },
    }
}

/// A reply that names no error and holds a non-empty text gives that text
/// cleaned, for every text: it then holds no bracket and no line break,
/// neither begins nor ends with white space, and keeps every character of
/// the text that is neither a bracket nor white space, in order.
pub proof fn law_reply_transcript_is_clean(t: Seq<char>)
    requires
        t.len() > 0,
    ensures
        reply_outcome(Some((None, Some(t)))) == Ok::<Seq<char>, Seq<char>>(cleaned(t)),
        free_of_brackets_and_breaks(cleaned(t)),
        trimmed_form(cleaned(t)),
        visible(cleaned(t)) == visible(t),
{
    law_cleaned_form(t);
    law_cleaning_keeps_content(t);
}

/// A reply that names an error gives that error, whatever its text; a
/// reply that is not JSON gives `"invalid json"`.
pub proof fn law_reply_errors_pass_through(e: Seq<char>, t: Option<Seq<char>>)
    ensures
        reply_outcome(Some((Some(e), t))) == Err::<Seq<char>, Seq<char>>(e),
        reply_outcome(None) == Err::<Seq<char>, Seq<char>>("invalid json"@),
{
}

/// A reply that names no error and holds no text, or an empty one, gives
/// the notice that no speech was recognised.
pub proof fn law_reply_without_text_gives_notice(t: Option<Seq<char>>)
    requires
        t matches Some(x) ==> x.len() == 0,
    ensures
        reply_outcome(Some((None, t))) == Ok::<Seq<char>, Seq<char>>("(未识别到语音)"@),
{
}

/// Reads the recogniser's reply line: the transcript, or the error it
/// reported.
pub fn read_reply(line: &str) -> (r: Result<String, String>)
    ensures
        result_view(r) == reply_outcome(json_reply(line@)),
{
    interpret_reply(parse_reply(line))
}

} // verus!

verus! {

/// Where the recogniser's script `name` is looked for, in order: as given,
/// under `src-tauri/`, and `beside_exe` (its path beside the executable,
/// empty when that is unknown).
pub fn script_candidates(name: &str, beside_exe: String) -> (r: Vec<String>)
    ensures
        r@.len() == 3,
        r@[0]@ == name@,
        r@[1]@ == "src-tauri/"@ + name@,
        r@[2] == beside_exe,
{
    let mut under = String::from_str("src-tauri/");
    under.append(name);
    let mut r: Vec<String> = Vec::new();
    r.push(String::from_str(name));
    r.push(under);
    r.push(beside_exe);
    r
}

/// The index of the first place that exists.
pub open spec fn first_present(places: Seq<(String, bool)>) -> Option<int>
    decreases places.len(),
{
    if places.len() == 0 {
        None
    } else if places[0].1 {
        Some(0)
    } else {
        match first_present(places.drop_first()) {
            Some(i) => Some(i + 1),
            None => None,
        }
    }
}

/// `first_present` names a place that exists and no earlier place exists;
/// it names none exactly when no place exists.
pub proof fn law_first_present_is_first(places: Seq<(String, bool)>)
    ensures
        first_present(places) matches Some(i) ==> (0 <= i < places.len() && places[i].1 && forall|
            j: int,
        | 0 <= j < i ==> !(#[trigger] places[j]).1),
        first_present(places) is None ==> forall|j: int|
            0 <= j < places.len() ==> !(#[trigger] places[j]).1,
    decreases places.len(),
{
    if places.len() > 0 && !places[0].1 {
        let rest = places.drop_first();
        law_first_present_is_first(rest);
        assert forall|j: int| 1 <= j < places.len() implies places[j] == rest[j - 1] by {}
    }
}

/// The script to run: the first place (paired with whether a file is
/// there) that exists, or the bare name when none does.
pub fn choose_script(name: &str, places: &Vec<(String, bool)>) -> (r: String)
    ensures
        first_present(places@) matches Some(i) ==> r@ == places@[i].0@,
        first_present(places@) is None ==> r@ == name@,
{
    let mut k: usize = 0;
    proof {
        assert(places@.skip(0) =~= places@);
    }
    while k < places.len()
        invariant
            k <= places@.len(),
            first_present(places@) == (match first_present(places@.skip(k as int)) {
                Some(i) => Some(i + k),
                None => None,
            }),
        decreases places@.len() - k,
    {
        proof {
            let rest = places@.skip(k as int);
            assert(rest.drop_first() =~= places@.skip(k + 1));
            assert(rest[0] == places@[k as int]);
        }
        if places[k].1 {
            return places[k].0.clone();
        }
        k = k + 1;
    }
    proof {
        assert(places@.skip(k as int) =~= Seq::<(String, bool)>::empty());
    }
    String::from_str(name)
}

} // verus!
