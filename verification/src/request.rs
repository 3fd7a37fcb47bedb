//! The completion request and response: the exact JSON body sent to the
//! chat-completion endpoint, and the draft message extracted from what comes
//! back.

use vstd::prelude::*;
use vstd::string::StringExecFns;
use crate::num::dec_int;
use crate::num::push_dec_i32;
use crate::text::push_char;

verus! {

pub open spec fn hex_char(d: int) -> char {
    if d == 0 {
        '0'
    } else if d == 1 {
        '1'
    } else if d == 2 {
        '2'
    } else if d == 3 {
        '3'
    } else if d == 4 {
        '4'
    } else if d == 5 {
        '5'
    } else if d == 6 {
        '6'
    } else if d == 7 {
        '7'
    } else if d == 8 {
        '8'
    } else if d == 9 {
        '9'
    } else if d == 10 {
        'a'
    } else if d == 11 {
        'b'
    } else if d == 12 {
        'c'
    } else if d == 13 {
        'd'
    } else if d == 14 {
        'e'
    } else {
        'f'
    }
}

/// How one character is written inside a JSON string: quote, backslash and
/// the common control characters behind a backslash, the remaining control
/// characters as a four-digit escape, everything else as itself.
pub open spec fn json_esc_char(c: char) -> Seq<char> {
    if c == '"' {
        seq!['\\', '"']
    } else if c == '\\' {
        seq!['\\', '\\']
    } else if c == '\n' {
        seq!['\\', 'n']
    } else if c == '\r' {
        seq!['\\', 'r']
    } else if c == '\t' {
        seq!['\\', 't']
    } else if (c as u32) < 0x20 {
        seq!['\\', 'u', '0', '0', hex_char((c as u32) as int / 16), hex_char(
            (c as u32) as int % 16,
        )]
    } else {
        seq![c]
    }
}

/// A whole text as it is written inside a JSON string.
pub open spec fn json_escape(v: Seq<char>) -> Seq<char>
    decreases v.len(),
{
    if v.len() == 0 {
        Seq::empty()
    } else {
        json_esc_char(v[0]) + json_escape(v.drop_first())
    }
}

proof fn lemma_json_escape_concat(a: Seq<char>, b: Seq<char>)
    ensures
        json_escape(a + b) == json_escape(a) + json_escape(b),
    decreases a.len(),
{
    if a.len() == 0 {
        assert(a + b =~= b);
        assert(json_escape(a) + json_escape(b) =~= json_escape(b));
    } else {
        assert((a + b).drop_first() =~= a.drop_first() + b);
        lemma_json_escape_concat(a.drop_first(), b);
        assert(json_esc_char(a[0]) + (json_escape(a.drop_first()) + json_escape(b)) =~= (
        json_esc_char(a[0]) + json_escape(a.drop_first())) + json_escape(b));
    }
}

proof fn lemma_json_escape_snoc(v: Seq<char>, c: char)
    ensures
        json_escape(v.push(c)) == json_escape(v) + json_esc_char(c),
{
    assert(v.push(c) =~= v + seq![c]);
    lemma_json_escape_concat(v, seq![c]);
    assert(seq![c].drop_first() =~= Seq::<char>::empty());
    assert(json_escape(seq![c]) == json_esc_char(c) + json_escape(seq![c].drop_first()));
    assert(json_esc_char(c) + Seq::<char>::empty() =~= json_esc_char(c));
}

fn hex_of(v: u32) -> (c: char)
    requires
        v < 16,
    ensures
        c == hex_char(v as int),
{
    if v == 0 {
        '0'
    } else if v == 1 {
        '1'
    } else if v == 2 {
        '2'
    } else if v == 3 {
        '3'
    } else if v == 4 {
        '4'
    } else if v == 5 {
        '5'
    } else if v == 6 {
        '6'
    } else if v == 7 {
        '7'
    } else if v == 8 {
        '8'
    } else if v == 9 {
        '9'
    } else if v == 10 {
        'a'
    } else if v == 11 {
        'b'
    } else if v == 12 {
        'c'
    } else if v == 13 {
        'd'
    } else if v == 14 {
        'e'
    } else {
        'f'
    }
}

fn push_json_char(out: &mut String, c: char)
    ensures
        final(out)@ == old(out)@ + json_esc_char(c),
{
    if c == '"' {
        push_char(out, '\\');
        push_char(out, '"');
    } else if c == '\\' {
        push_char(out, '\\');
        push_char(out, '\\');
    } else if c == '\n' {
        push_char(out, '\\');
        push_char(out, 'n');
    } else if c == '\r' {
        push_char(out, '\\');
        push_char(out, 'r');
    } else if c == '\t' {
        push_char(out, '\\');
        push_char(out, 't');
    } else {
        let v = c as u32;
        if v < 0x20 {
            push_char(out, '\\');
            push_char(out, 'u');
            push_char(out, '0');
            push_char(out, '0');
            push_char(out, hex_of(v / 16));
            push_char(out, hex_of(v % 16));
        } else {
            push_char(out, c);
        }
    }
    proof {
        assert(out@ =~= old(out)@ + json_esc_char(c));
    }
}

fn push_json_escaped(out: &mut String, v: &str)
    ensures
        final(out)@ == old(out)@ + json_escape(v@),
{
    let n = v.unicode_len();
    let mut i: usize = 0;
    proof {
        assert(v@.take(0) =~= Seq::<char>::empty());
        assert(old(out)@ + Seq::<char>::empty() =~= old(out)@);
    }
    while i < n
        invariant
            n == v@.len(),
            i <= n,
            out@ == old(out)@ + json_escape(v@.take(i as int)),
        decreases n - i,
    {
        let c = v.get_char(i);
        let ghost prev = out@;
        push_json_char(out, c);
        proof {
            assert(v@.take(i + 1) =~= v@.take(i as int).push(c));
            lemma_json_escape_snoc(v@.take(i as int), c);
            assert(out@ =~= old(out)@ + json_escape(v@.take(i + 1)));
        }
        i += 1;
    }
    proof {
        assert(v@.take(n as int) =~= v@);
    }
}

/// The exact JSON body of a completion request: one user-role message whose
/// content is the prompt, the configured model name, and the token cap.
pub open spec fn request_body_view(model: Seq<char>, max_tokens: int, prompt: Seq<char>) -> Seq<
    char,
> {
    "{\"model\":\""@ + json_escape(model)
        + "\",\"messages\":[{\"role\":\"user\",\"content\":\""@ + json_escape(prompt)
        + "\"}],\"max_tokens\":"@ + dec_int(max_tokens) + seq!['}']
}

/// Builds the request body sent to the completion endpoint.
pub fn build_request_body(model: &str, max_tokens: i32, prompt: &str) -> (r: String)
    ensures
        r@ == request_body_view(model@, max_tokens as int, prompt@),
{
    let mut out = String::new();
    out.append("{\"model\":\"");
    push_json_escaped(&mut out, model);
    out.append("\",\"messages\":[{\"role\":\"user\",\"content\":\"");
    push_json_escaped(&mut out, prompt);
    out.append("\"}],\"max_tokens\":");
    push_dec_i32(&mut out, max_tokens);
    push_char(&mut out, '}');
    proof {
        assert(out@ =~= request_body_view(model@, max_tokens as int, prompt@));
    }
    out
}

/// What reading a chat-completion response text yields, a function of that
/// text alone: nothing when the text is not JSON at all; otherwise the string
/// at `choices[0].message.content` when that path ends at one, and an inner
/// nothing when it does not.
pub uninterp spec fn parsed_content_of(body: Seq<char>) -> Option<Option<Seq<char>>>;

/// Relies on serde_json::from_str, serde_json::Value::get and
/// serde_json::Value::as_str: whether the response text parses as JSON at
/// all, and if so the string at `choices[0].message.content` when there is
/// one — a pure function of the text.
#[verifier::external_body]
fn parse_choice_content(body: &str) -> (r: Option<Option<String>>)
    ensures
        r.deep_view() == parsed_content_of(body@),
{
    let parsed: serde_json::Value = match serde_json::from_str(body) {
        Ok(v) => v,
        Err(_) => {
            return None;
        },
    };
    Some(
        parsed
            .get("choices")
            .and_then(|choices| choices.get(0))
            .and_then(|choice| choice.get("message"))
            .and_then(|message| message.get("content"))
            .and_then(|content| content.as_str())
            .map(|s| s.to_owned()),
    )
}

/// The draft a parsed response yields: its content when it carries one, the
/// fixed placeholder when it parses without one; nothing for a text that is
/// not JSON, which the workflow then treats like a transport failure.
pub open spec fn response_draft(outcome: Option<Option<Seq<char>>>) -> Option<Seq<char>> {
    match outcome {
        None => None,
        Some(None) => Some("No response"@),
        Some(Some(c)) => Some(c),
    }
}

/// The draft for an already-extracted parse outcome.
pub fn draft_from_outcome(outcome: Option<Option<String>>) -> (r: Option<String>)
    ensures
        r.deep_view() == response_draft(outcome.deep_view()),
{
    match outcome {
        None => None,
        Some(None) => Some("No response".to_owned()),
        Some(Some(c)) => Some(c),
    }
}

/// The draft message a response text yields: its first choice's message
/// content, or the placeholder when the parsed response carries none; nothing
/// when the text is not JSON.
pub fn message_from_response(body: &str) -> (r: Option<String>)
    ensures
        r.deep_view() == response_draft(parsed_content_of(body@)),
{
    let outcome = parse_choice_content(body);
    draft_from_outcome(outcome)
}

} // verus!
