//! The settings store: the settings record, its defaults, the on-disk text
//! format, and the configuration override command.
//!
//! The file holds one `[api]` section with the four keys, one per line, in
//! any order, each once; spaces and tabs around the parts and blank lines
//! between them are allowed, string values are quoted with backslash escapes.
//! A file the parser cannot read — missing, truncated, malformed, a key
//! repeated or absent — yields the defaults whole; there is no partial parse.

use vstd::prelude::*;
use vstd::string::StringExecFns;
use crate::num::dec_int;
use crate::num::lemma_dec_nat_digits;
use crate::num::lemma_take_int_dec;
use crate::num::lemma_take_int_rest_len;
use crate::num::parse_i32;
use crate::num::scan_int;
use crate::num::spec_parse_i32;
use crate::num::take_int;
use crate::num::push_dec_i32;
use crate::text::push_char;

verus! {

/// What the tool remembers between runs: the bearer token, the completion
/// endpoint, the model name, and the cap on generated tokens.
pub struct Settings {
    pub token: String,
    pub url: String,
    pub model: String,
    pub max_tokens: i32,
}

/// The mathematical value of a settings record.
#[verifier::ext_equal]
pub ghost struct SettingsView {
    pub token: Seq<char>,
    pub url: Seq<char>,
    pub model: Seq<char>,
    pub max_tokens: int,
}

impl View for Settings {
    type V = SettingsView;

    open spec fn view(&self) -> SettingsView {
        SettingsView {
            token: self.token@,
            url: self.url@,
            model: self.model@,
            max_tokens: self.max_tokens as int,
        }
    }
}

/// The defaults: no token yet, the public chat-completion endpoint, and a
/// moderate token cap.
pub open spec fn default_view() -> SettingsView {
    SettingsView {
        token: Seq::empty(),
        url: "https://api.openai.com/v1/chat/completions"@,
        model: "gpt-4o"@,
        max_tokens: 300,
    }
}

impl Default for Settings {
    /// The settings used when no file is present or its text is malformed.
    fn default() -> (r: Settings)
        ensures
            r@ == default_view(),
    {
        Settings {
            token: String::new(),
            url: "https://api.openai.com/v1/chat/completions".to_owned(),
            model: "gpt-4o".to_owned(),
            max_tokens: 300,
        }
    }
}

/// How one character is written inside a quoted value: the quote, the
/// backslash and the newline hide behind a backslash, everything else stands
/// as itself.
pub open spec fn esc_char(c: char) -> Seq<char> {
    if c == '"' {
        seq!['\\', '"']
    } else if c == '\\' {
        seq!['\\', '\\']
    } else if c == '\n' {
        seq!['\\', 'n']
    } else {
        seq![c]
    }
}

/// A whole value as it is written inside quotes.
pub open spec fn escape_text(v: Seq<char>) -> Seq<char>
    decreases v.len(),
{
    if v.len() == 0 {
        Seq::empty()
    } else {
        esc_char(v[0]) + escape_text(v.drop_first())
    }
}

proof fn lemma_escape_concat(a: Seq<char>, b: Seq<char>)
    ensures
        escape_text(a + b) == escape_text(a) + escape_text(b),
    decreases a.len(),
{
    if a.len() == 0 {
        assert(a + b =~= b);
        assert(escape_text(a) + escape_text(b) =~= escape_text(b));
    } else {
        assert((a + b).drop_first() =~= a.drop_first() + b);
        lemma_escape_concat(a.drop_first(), b);
        assert(esc_char(a[0]) + (escape_text(a.drop_first()) + escape_text(b)) =~= (esc_char(a[0])
            + escape_text(a.drop_first())) + escape_text(b));
    }
}

proof fn lemma_escape_snoc(v: Seq<char>, c: char)
    ensures
        escape_text(v.push(c)) == escape_text(v) + esc_char(c),
{
    assert(v.push(c) =~= v + seq![c]);
    lemma_escape_concat(v, seq![c]);
    assert(seq![c].drop_first() =~= Seq::<char>::empty());
    assert(escape_text(seq![c]) == esc_char(c) + escape_text(seq![c].drop_first()));
    assert(esc_char(c) + Seq::<char>::empty() =~= esc_char(c));
}

/// The value written between a pair of quotes, and the text after the closing
/// quote; nothing when no well-formed quoted value starts the text.
pub open spec fn take_quoted(t: Seq<char>) -> Option<(Seq<char>, Seq<char>)>
    decreases t.len(),
{
    if t.len() == 0 {
        None
    } else if t[0] == '"' {
        Some((Seq::empty(), t.skip(1)))
    } else if t[0] == '\\' {
        if t.len() >= 2 && (t[1] == '"' || t[1] == '\\' || t[1] == 'n') {
            let c = if t[1] == 'n' {
                '\n'
            } else {
                t[1]
            };
            match take_quoted(t.skip(2)) {
                Some(p) => Some((seq![c] + p.0, p.1)),
                None => None,
            }
        } else {
            None
        }
    } else if t[0] == '\n' {
        None
    } else {
        match take_quoted(t.skip(1)) {
            Some(p) => Some((seq![t[0]] + p.0, p.1)),
            None => None,
        }
    }
}

/// Reading a quoted value back gives exactly the value that was escaped into
/// it, and leaves exactly what followed the closing quote.
pub proof fn lemma_take_quoted_escape(v: Seq<char>, rest: Seq<char>)
    ensures
        take_quoted(escape_text(v) + seq!['"'] + rest) == Some((v, rest)),
    decreases v.len(),
{
    let t = escape_text(v) + seq!['"'] + rest;
    if v.len() == 0 {
        assert(t =~= seq!['"'] + rest);
        assert(t[0] == '"');
        assert(t.skip(1) =~= rest);
    } else {
        let c = v[0];
        lemma_take_quoted_escape(v.drop_first(), rest);
        assert(escape_text(v) == esc_char(c) + escape_text(v.drop_first()));
        if c == '"' || c == '\\' || c == '\n' {
            assert(t[0] == '\\');
            assert(t[1] == esc_char(c)[1]);
            assert(t.skip(2) =~= escape_text(v.drop_first()) + seq!['"'] + rest);
            assert(seq![c] + v.drop_first() =~= v);
        } else {
            assert(t[0] == c);
            assert(t.skip(1) =~= escape_text(v.drop_first()) + seq!['"'] + rest);
            assert(seq![c] + v.drop_first() =~= v);
        }
    }
}

proof fn lemma_take_quoted_rest_len(t: Seq<char>)
    ensures
        take_quoted(t) matches Some(p) ==> p.1.len() < t.len(),
    decreases t.len(),
{
    if t.len() > 0 && t[0] != '"' {
        if t[0] == '\\' && t.len() >= 2 && (t[1] == '"' || t[1] == '\\' || t[1] == 'n') {
            lemma_take_quoted_rest_len(t.skip(2));
        } else if t[0] != '\\' && t[0] != '\n' {
            lemma_take_quoted_rest_len(t.skip(1));
        }
    }
}

/// The rest of a text after a fixed expected prefix; nothing when the text
/// does not begin with it.
pub open spec fn expect_pre(t: Seq<char>, pat: Seq<char>) -> Option<Seq<char>> {
    if pat.len() <= t.len() && t.take(pat.len() as int) == pat {
        Some(t.skip(pat.len() as int))
    } else {
        None
    }
}

proof fn lemma_expect_pre_concat(l: Seq<char>, r: Seq<char>)
    ensures
        expect_pre(l + r, l) == Some(r),
{
    assert((l + r).take(l.len() as int) =~= l);
    assert((l + r).skip(l.len() as int) =~= r);
}

/// Space or tab: the whitespace an entry line may carry around its parts.
pub open spec fn is_sp(c: char) -> bool {
    c == ' ' || c == '\t'
}

/// The text after its leading spaces and tabs.
pub open spec fn skip_sp(t: Seq<char>) -> Seq<char>
    decreases t.len(),
{
    if t.len() > 0 && is_sp(t[0]) {
        skip_sp(t.skip(1))
    } else {
        t
    }
}

/// The text after its leading spaces, tabs and line breaks.
pub open spec fn skip_blank(t: Seq<char>) -> Seq<char>
    decreases t.len(),
{
    if t.len() > 0 && (is_sp(t[0]) || t[0] == '\n') {
        skip_blank(t.skip(1))
    } else {
        t
    }
}

proof fn lemma_skip_sp_len(t: Seq<char>)
    ensures
        skip_sp(t).len() <= t.len(),
    decreases t.len(),
{
    if t.len() > 0 && is_sp(t[0]) {
        lemma_skip_sp_len(t.skip(1));
    }
}

proof fn lemma_skip_blank_len(t: Seq<char>)
    ensures
        skip_blank(t).len() <= t.len(),
    decreases t.len(),
{
    if t.len() > 0 && (is_sp(t[0]) || t[0] == '\n') {
        lemma_skip_blank_len(t.skip(1));
    }
}

/// A quoted value at the front of the text: what it holds and what follows
/// its closing quote.
pub open spec fn take_string(t: Seq<char>) -> Option<(Seq<char>, Seq<char>)> {
    if t.len() > 0 && t[0] == '"' {
        take_quoted(t.skip(1))
    } else {
        None
    }
}

proof fn lemma_take_string_rest_len(t: Seq<char>)
    ensures
        take_string(t) matches Some(p) ==> p.1.len() < t.len(),
{
    if t.len() > 0 && t[0] == '"' {
        lemma_take_quoted_rest_len(t.skip(1));
    }
}

/// The text after `<key> = ` at the front — spaces and tabs allowed around
/// the equals sign — when the text starts with exactly that key.
pub open spec fn entry_rest(t: Seq<char>, key: Seq<char>) -> Option<Seq<char>> {
    match expect_pre(t, key) {
        None => None,
        Some(r) => {
            let r1 = skip_sp(r);
            if r1.len() > 0 && r1[0] == '=' {
                Some(skip_sp(r1.skip(1)))
            } else {
                None
            }
        },
    }
}

proof fn lemma_entry_rest_len(t: Seq<char>, key: Seq<char>)
    ensures
        entry_rest(t, key) matches Some(r) ==> r.len() < t.len(),
{
    match expect_pre(t, key) {
        None => {},
        Some(r) => {
            lemma_skip_sp_len(r);
            let r1 = skip_sp(r);
            if r1.len() > 0 && r1[0] == '=' {
                lemma_skip_sp_len(r1.skip(1));
            }
        },
    }
}

/// The fields collected so far while the entries are read.
#[verifier::ext_equal]
pub ghost struct PartialSettings {
    pub token: Option<Seq<char>>,
    pub url: Option<Seq<char>>,
    pub model: Option<Seq<char>>,
    pub max_tokens: Option<int>,
}

pub open spec fn no_fields() -> PartialSettings {
    PartialSettings { token: None, url: None, model: None, max_tokens: None }
}

/// The settings once every entry was read: all four keys must have appeared.
pub open spec fn finish(acc: PartialSettings) -> Option<SettingsView> {
    if acc.token is Some && acc.url is Some && acc.model is Some && acc.max_tokens is Some {
        Some(
            SettingsView {
                token: acc.token->0,
                url: acc.url->0,
                model: acc.model->0,
                max_tokens: acc.max_tokens->0,
            },
        )
    } else {
        None
    }
}

/// Reads the section's entries one line at a time, in any order, each key at
/// most once: a string value for the three text keys, a signed 32-bit number
/// for the token cap, nothing after a value but blank space before the line
/// break. Anything else makes the whole text denote nothing.
pub open spec fn parse_entries(t: Seq<char>, acc: PartialSettings) -> Option<SettingsView>
    decreases t.len(),
    via parse_entries_decreases
{
    let t1 = skip_blank(t);
    if t1.len() == 0 {
        finish(acc)
    } else if entry_rest(t1, "token"@) is Some {
        match take_string(entry_rest(t1, "token"@)->0) {
            None => None,
            Some((v, rest)) => if acc.token is Some {
                None
            } else {
                let r2 = skip_sp(rest);
                if r2.len() == 0 || r2[0] == '\n' {
                    parse_entries(r2, PartialSettings { token: Some(v), ..acc })
                } else {
                    None
                }
            },
        }
    } else if entry_rest(t1, "url"@) is Some {
        match take_string(entry_rest(t1, "url"@)->0) {
            None => None,
            Some((v, rest)) => if acc.url is Some {
                None
            } else {
                let r2 = skip_sp(rest);
                if r2.len() == 0 || r2[0] == '\n' {
                    parse_entries(r2, PartialSettings { url: Some(v), ..acc })
                } else {
                    None
                }
            },
        }
    } else if entry_rest(t1, "model"@) is Some {
        match take_string(entry_rest(t1, "model"@)->0) {
            None => None,
            Some((v, rest)) => if acc.model is Some {
                None
            } else {
                let r2 = skip_sp(rest);
                if r2.len() == 0 || r2[0] == '\n' {
                    parse_entries(r2, PartialSettings { model: Some(v), ..acc })
                } else {
                    None
                }
            },
        }
    } else if entry_rest(t1, "max_tokens"@) is Some {
        match take_int(entry_rest(t1, "max_tokens"@)->0) {
            None => None,
            Some((v, rest)) => if acc.max_tokens is Some || !(-0x8000_0000 <= v <= 0x7fff_ffff) {
                None
            } else {
                let r2 = skip_sp(rest);
                if r2.len() == 0 || r2[0] == '\n' {
                    parse_entries(r2, PartialSettings { max_tokens: Some(v), ..acc })
                } else {
                    None
                }
            },
        }
    } else {
        None
    }
}

#[via_fn]
proof fn parse_entries_decreases(t: Seq<char>, acc: PartialSettings) {
    lemma_skip_blank_len(t);
    let t1 = skip_blank(t);
    lemma_entry_rest_len(t1, "token"@);
    lemma_entry_rest_len(t1, "url"@);
    lemma_entry_rest_len(t1, "model"@);
    lemma_entry_rest_len(t1, "max_tokens"@);
    if entry_rest(t1, "token"@) is Some {
        lemma_take_string_rest_len(entry_rest(t1, "token"@)->0);
        match take_string(entry_rest(t1, "token"@)->0) {
            Some(p) => lemma_skip_sp_len(p.1),
            None => {},
        }
    } else if entry_rest(t1, "url"@) is Some {
        lemma_take_string_rest_len(entry_rest(t1, "url"@)->0);
        match take_string(entry_rest(t1, "url"@)->0) {
            Some(p) => lemma_skip_sp_len(p.1),
            None => {},
        }
    } else if entry_rest(t1, "model"@) is Some {
        lemma_take_string_rest_len(entry_rest(t1, "model"@)->0);
        match take_string(entry_rest(t1, "model"@)->0) {
            Some(p) => lemma_skip_sp_len(p.1),
            None => {},
        }
    } else if entry_rest(t1, "max_tokens"@) is Some {
        lemma_take_int_rest_len(entry_rest(t1, "max_tokens"@)->0);
        match take_int(entry_rest(t1, "max_tokens"@)->0) {
            Some(p) => lemma_skip_sp_len(p.1),
            None => {},
        }
    }
}

/// The settings value a file text denotes: blank space, the `[api]` header on
/// a line of its own, then the four entries.
pub open spec fn parse_view(t: Seq<char>) -> Option<SettingsView> {
    let h = skip_blank(t);
    match expect_pre(h, "[api]"@) {
        None => None,
        Some(r) => {
            let r1 = skip_sp(r);
            if r1.len() == 0 || r1[0] == '\n' {
                parse_entries(r1, no_fields())
            } else {
                None
            }
        },
    }
}

/// The canonical settings file text for a settings value: the four keys in a
/// fixed order, one per line, string values quoted and escaped, and the token
/// cap in decimal.
pub open spec fn render_view(m: SettingsView) -> Seq<char> {
    "[api]\n"@ + "token = \""@ + escape_text(m.token) + "\"\n"@ + "url = \""@ + escape_text(m.url)
        + "\"\n"@ + "model = \""@ + escape_text(m.model) + "\"\n"@ + "max_tokens = "@ + dec_int(
        m.max_tokens,
    ) + seq!['\n']
}

/// What loading yields for a given file state: the parsed settings when the
/// text is well formed, the defaults when it is not or no text exists.
pub open spec fn load_view(t: Option<Seq<char>>) -> SettingsView {
    match t {
        Some(t) => match parse_view(t) {
            Some(m) => m,
            None => default_view(),
        },
        None => default_view(),
    }
}

/// A syntactically invalid settings text loads as exactly the defaults: no
/// field survives a failed parse.
pub proof fn lemma_load_invalid_is_default(t: Seq<char>)
    requires
        parse_view(t) is None,
    ensures
        load_view(Some(t)) == default_view(),
{
}

fn expect_lit(s: &str, from: usize, pat: &str) -> (r: Option<usize>)
    requires
        from <= s@.len(),
    ensures
        match r {
            Some(j) => from + pat@.len() == j && j <= s@.len() && expect_pre(
                s@.skip(from as int),
                pat@,
            ) == Some(s@.skip(j as int)),
            None => expect_pre(s@.skip(from as int), pat@) is None,
        },
{
    let n = s.unicode_len();
    let m = pat.unicode_len();
    if m > n - from {
        return None;
    }
    let mut k: usize = 0;
    while k < m
        invariant
            n == s@.len(),
            m == pat@.len(),
            from + m <= n,
            k <= m,
            forall|j: int| 0 <= j < k ==> s@[from + j] == pat@[j],
        decreases m - k,
    {
        if s.get_char(from + k) != pat.get_char(k) {
            proof {
                let t = s@.skip(from as int);
                assert(t.take(m as int)[k as int] != pat@[k as int]);
            }
            return None;
        }
        k += 1;
    }
    proof {
        let t = s@.skip(from as int);
        assert(t.take(m as int) =~= pat@);
        assert(t.skip(m as int) =~= s@.skip(from + m));
    }
    Some(from + m)
}

fn scan_quoted(s: &str, from: usize) -> (r: Option<(String, usize)>)
    requires
        from <= s@.len(),
    ensures
        match r {
            Some(p) => p.1 <= s@.len() && take_quoted(s@.skip(from as int)) == Some(
                (p.0@, s@.skip(p.1 as int)),
            ),
            None => take_quoted(s@.skip(from as int)) is None,
        },
{
    let n = s.unicode_len();
    let mut out = String::new();
    let mut i: usize = from;
    proof {
        match take_quoted(s@.skip(from as int)) {
            Some(p) => {
                assert(Seq::<char>::empty() + p.0 =~= p.0);
            },
            None => {},
        }
    }
    while i < n
        invariant
            n == s@.len(),
            from <= i <= n,
            match take_quoted(s@.skip(i as int)) {
                Some(p) => take_quoted(s@.skip(from as int)) == Some((out@ + p.0, p.1)),
                None => take_quoted(s@.skip(from as int)) is None,
            },
        decreases n - i,
    {
        let c = s.get_char(i);
        proof {
            assert(s@.skip(i as int)[0] == c);
        }
        if c == '"' {
            proof {
                assert(s@.skip(i as int).skip(1) =~= s@.skip(i + 1));
                assert(out@ + Seq::<char>::empty() =~= out@);
            }
            return Some((out, i + 1));
        } else if c == '\\' {
            if i + 1 == n {
                return None;
            }
            let c2 = s.get_char(i + 1);
            proof {
                assert(s@.skip(i as int)[1] == c2);
            }
            let u = if c2 == '"' {
                '"'
            } else if c2 == '\\' {
                '\\'
            } else if c2 == 'n' {
                '\n'
            } else {
                return None;
            };
            let ghost prev = out@;
            push_char(&mut out, u);
            proof {
                assert(s@.skip(i as int).skip(2) =~= s@.skip(i + 2));
                match take_quoted(s@.skip(i + 2)) {
                    Some(p) => {
                        assert(prev + (seq![u] + p.0) =~= out@ + p.0);
                    },
                    None => {},
                }
            }
            i += 2;
        } else if c == '\n' {
            return None;
        } else {
            let ghost prev = out@;
            push_char(&mut out, c);
            proof {
                assert(s@.skip(i as int).skip(1) =~= s@.skip(i + 1));
                match take_quoted(s@.skip(i + 1)) {
                    Some(p) => {
                        assert(prev + (seq![c] + p.0) =~= out@ + p.0);
                    },
                    None => {},
                }
            }
            i += 1;
        }
    }
    None
}

fn skip_sp_at(s: &str, from: usize) -> (j: usize)
    requires
        from <= s@.len(),
    ensures
        from <= j <= s@.len(),
        s@.skip(j as int) == skip_sp(s@.skip(from as int)),
{
    let n = s.unicode_len();
    let mut j: usize = from;
    while j < n
        invariant
            n == s@.len(),
            from <= j <= n,
            skip_sp(s@.skip(from as int)) == skip_sp(s@.skip(j as int)),
        decreases n - j,
    {
        let c = s.get_char(j);
        proof {
            assert(s@.skip(j as int)[0] == c);
        }
        if !(c == ' ' || c == '\t') {
            return j;
        }
        proof {
            assert(s@.skip(j as int).skip(1) =~= s@.skip(j + 1));
        }
        j += 1;
    }
    proof {
        assert(s@.skip(n as int) =~= Seq::<char>::empty());
    }
    j
}

fn skip_blank_at(s: &str, from: usize) -> (j: usize)
    requires
        from <= s@.len(),
    ensures
        from <= j <= s@.len(),
        s@.skip(j as int) == skip_blank(s@.skip(from as int)),
{
    let n = s.unicode_len();
    let mut j: usize = from;
    while j < n
        invariant
            n == s@.len(),
            from <= j <= n,
            skip_blank(s@.skip(from as int)) == skip_blank(s@.skip(j as int)),
        decreases n - j,
    {
        let c = s.get_char(j);
        proof {
            assert(s@.skip(j as int)[0] == c);
        }
        if !(c == ' ' || c == '\t' || c == '\n') {
            return j;
        }
        proof {
            assert(s@.skip(j as int).skip(1) =~= s@.skip(j + 1));
        }
        j += 1;
    }
    proof {
        assert(s@.skip(n as int) =~= Seq::<char>::empty());
    }
    j
}

fn entry_rest_at(s: &str, from: usize, key: &str) -> (r: Option<usize>)
    requires
        from <= s@.len(),
    ensures
        match r {
            Some(j) => j <= s@.len() && entry_rest(s@.skip(from as int), key@) == Some(
                s@.skip(j as int),
            ),
            None => entry_rest(s@.skip(from as int), key@) is None,
        },
{
    let n = s.unicode_len();
    let j = match expect_lit(s, from, key) {
        Some(j) => j,
        None => {
            return None;
        },
    };
    let j1 = skip_sp_at(s, j);
    if j1 == n {
        return None;
    }
    let c = s.get_char(j1);
    proof {
        assert(s@.skip(j1 as int)[0] == c);
    }
    if c == '=' {
        proof {
            assert(s@.skip(j1 as int).skip(1) =~= s@.skip(j1 + 1));
        }
        let j2 = skip_sp_at(s, j1 + 1);
        Some(j2)
    } else {
        None
    }
}

/// Parses a settings file text; nothing unless the whole text is well formed.
pub fn parse_settings(text: &str) -> (r: Option<Settings>)
    ensures
        match r {
            Some(st) => parse_view(text@) == Some(st@),
            None => parse_view(text@) is None,
        },
{
    let n = text.unicode_len();
    proof {
        assert(text@.skip(0) =~= text@);
    }
    let h = skip_blank_at(text, 0);
    let p0 = match expect_lit(text, h, "[api]") {
        Some(j) => j,
        None => {
            return None;
        },
    };
    let p1 = skip_sp_at(text, p0);
    if p1 < n {
        let c = text.get_char(p1);
        proof {
            assert(text@.skip(p1 as int)[0] == c);
        }
        if c != '\n' {
            return None;
        }
    } else {
        proof {
            assert(text@.skip(p1 as int).len() == 0);
        }
    }
    let mut pos = p1;
    let mut tok: Option<String> = None;
    let mut url: Option<String> = None;
    let mut mdl: Option<String> = None;
    let mut cap: Option<i32> = None;
    loop
        invariant
            pos <= n,
            n == text@.len(),
            parse_view(text@) == parse_entries(
                text@.skip(pos as int),
                PartialSettings {
                    token: tok.deep_view(),
                    url: url.deep_view(),
                    model: mdl.deep_view(),
                    max_tokens: match cap {
                        Some(v) => Some(v as int),
                        None => None,
                    },
                },
            ),
        decreases n - pos,
    {
        let ghost acc = PartialSettings {
            token: tok.deep_view(),
            url: url.deep_view(),
            model: mdl.deep_view(),
            max_tokens: match cap {
                Some(v) => Some(v as int),
                None => None,
            },
        };
        let b = skip_blank_at(text, pos);
        if b == n {
            proof {
                assert(text@.skip(n as int).len() == 0);
            }
            return match (tok, url, mdl, cap) {
                (Some(t), Some(u), Some(m), Some(v)) => Some(
                    Settings { token: t, url: u, model: m, max_tokens: v },
                ),
                _ => None,
            };
        }
        let ghost t1 = text@.skip(b as int);
        let which: u8;
        let after_key: usize;
        match entry_rest_at(text, b, "token") {
            Some(j) => {
                which = 0;
                after_key = j;
            },
            None => match entry_rest_at(text, b, "url") {
                Some(j) => {
                    which = 1;
                    after_key = j;
                },
                None => match entry_rest_at(text, b, "model") {
                    Some(j) => {
                        which = 2;
                        after_key = j;
                    },
                    None => match entry_rest_at(text, b, "max_tokens") {
                        Some(j) => {
                            which = 3;
                            after_key = j;
                        },
                        None => {
                            return None;
                        },
                    },
                },
            },
        }
        proof {
            lemma_entry_rest_len(t1, "token"@);
            lemma_entry_rest_len(t1, "url"@);
            lemma_entry_rest_len(t1, "model"@);
            lemma_entry_rest_len(t1, "max_tokens"@);
        }
        if which <= 2 {
            // one of the three string keys
            if after_key == n {
                return None;
            }
            let cq = text.get_char(after_key);
            proof {
                assert(text@.skip(after_key as int)[0] == cq);
            }
            if cq != '"' {
                return None;
            }
            proof {
                assert(text@.skip(after_key as int).skip(1) =~= text@.skip(after_key + 1));
            }
            let (v, e) = match scan_quoted(text, after_key + 1) {
                Some(x) => x,
                None => {
                    return None;
                },
            };
            proof {
                lemma_take_string_rest_len(text@.skip(after_key as int));
            }
            if which == 0 && tok.is_some() {
                return None;
            }
            if which == 1 && url.is_some() {
                return None;
            }
            if which == 2 && mdl.is_some() {
                return None;
            }
            let e2 = skip_sp_at(text, e);
            if e2 < n {
                let ce = text.get_char(e2);
                proof {
                    assert(text@.skip(e2 as int)[0] == ce);
                }
                if ce != '\n' {
                    return None;
                }
            } else {
                proof {
                    assert(text@.skip(e2 as int).len() == 0);
                }
            }
            if which == 0 {
                tok = Some(v);
            } else if which == 1 {
                url = Some(v);
            } else {
                mdl = Some(v);
            }
            pos = e2;
        } else {
            // the token cap
            let (v, e) = match scan_int(text, after_key) {
                Some(x) => x,
                None => {
                    return None;
                },
            };
            proof {
                lemma_take_int_rest_len(text@.skip(after_key as int));
            }
            if cap.is_some() {
                return None;
            }
            let e2 = skip_sp_at(text, e);
            if e2 < n {
                let ce = text.get_char(e2);
                proof {
                    assert(text@.skip(e2 as int)[0] == ce);
                }
                if ce != '\n' {
                    return None;
                }
            } else {
                proof {
                    assert(text@.skip(e2 as int).len() == 0);
                }
            }
            cap = Some(v);
            pos = e2;
        }
    }
}

fn push_escaped(out: &mut String, v: &str)
    ensures
        final(out)@ == old(out)@ + escape_text(v@),
{
    let n = v.unicode_len();
    let mut i: usize = 0;
    proof {
        assert(v@.take(0) =~= Seq::<char>::empty());
        assert(old(out)@ + Seq::<char>::empty() =~= old(out)@);
    }
    while i < n
        invariant
            n == v@.len(),
            i <= n,
            out@ == old(out)@ + escape_text(v@.take(i as int)),
        decreases n - i,
    {
        let c = v.get_char(i);
        let ghost prev = out@;
        if c == '"' {
            push_char(out, '\\');
            push_char(out, '"');
        } else if c == '\\' {
            push_char(out, '\\');
            push_char(out, '\\');
        } else if c == '\n' {
            push_char(out, '\\');
            push_char(out, 'n');
        } else {
            push_char(out, c);
        }
        proof {
            assert(out@ =~= prev + esc_char(c));
            assert(v@.take(i + 1) =~= v@.take(i as int).push(c));
            lemma_escape_snoc(v@.take(i as int), c);
            assert(out@ =~= old(out)@ + escape_text(v@.take(i + 1)));
        }
        i += 1;
    }
    proof {
        assert(v@.take(n as int) =~= v@);
    }
}

/// The exact file text written for a settings value.
pub fn save_text(s: &Settings) -> (r: String)
    ensures
        r@ == render_view(s@),
{
    let mut out = String::new();
    out.append("[api]\n");
    out.append("token = \"");
    push_escaped(&mut out, s.token.as_str());
    out.append("\"\n");
    out.append("url = \"");
    push_escaped(&mut out, s.url.as_str());
    out.append("\"\n");
    out.append("model = \"");
    push_escaped(&mut out, s.model.as_str());
    out.append("\"\n");
    out.append("max_tokens = ");
    push_dec_i32(&mut out, s.max_tokens);
    push_char(&mut out, '\n');
    proof {
        assert(out@ =~= render_view(s@));
    }
    out
}

/// Loads settings from the file text when there is one: a missing or
/// malformed file yields the defaults whole.
pub fn load(text: Option<&str>) -> (r: Settings)
    ensures
        r@ == load_view(
            match text {
                Some(t) => Some(t@),
                None => None,
            },
        ),
{
    match text {
        None => Settings::default(),
        Some(t) => match parse_settings(t) {
            Some(st) => st,
            None => Settings::default(),
        },
    }
}

proof fn lemma_entry_string_step(key: Seq<char>, v: Seq<char>, rest: Seq<char>)
    ensures
        ({
            let t = key + " = \""@ + escape_text(v) + "\"\n"@ + rest;
            &&& entry_rest(t, key) is Some
            &&& take_string(entry_rest(t, key)->0) == Some((v, seq!['\n'] + rest))
            &&& skip_sp(seq!['\n'] + rest) == seq!['\n'] + rest
            &&& (seq!['\n'] + rest)[0] == '\n'
        }),
{
    reveal_strlit(" = \"");
    reveal_strlit("\"\n");
    let t = key + " = \""@ + escape_text(v) + "\"\n"@ + rest;
    let after = " = \""@ + escape_text(v) + "\"\n"@ + rest;
    assert(t =~= key + after);
    lemma_expect_pre_concat(key, after);
    assert(after[0] == ' ');
    assert(after[1] == '=');
    assert(after[2] == ' ');
    assert(after[3] == '"');
    assert(skip_sp(after) == skip_sp(after.skip(1))) by {
        assert(is_sp(after[0]));
    }
    assert(after.skip(1)[0] == '=');
    assert(skip_sp(after.skip(1)) == after.skip(1));
    assert(after.skip(1).skip(1) =~= after.skip(2));
    assert(after.skip(2)[0] == ' ');
    assert(skip_sp(after.skip(2)) == skip_sp(after.skip(2).skip(1)));
    assert(after.skip(2).skip(1) =~= after.skip(3));
    assert(skip_sp(after.skip(3)) == after.skip(3)) by {
        assert(!is_sp(after[3]));
    }
    assert(entry_rest(t, key) == Some(after.skip(3)));
    let value = after.skip(3);
    assert(value[0] == '"');
    assert(value.skip(1) =~= escape_text(v) + seq!['"'] + (seq!['\n'] + rest));
    lemma_take_quoted_escape(v, seq!['\n'] + rest);
    assert((seq!['\n'] + rest)[0] == '\n');
    assert(skip_sp(seq!['\n'] + rest) == seq!['\n'] + rest);
}

proof fn lemma_entry_int_step(n: int, rest: Seq<char>)
    requires
        rest.len() == 0 || !crate::num::is_digit(rest[0]),
    ensures
        ({
            let t = "max_tokens"@ + " = "@ + dec_int(n) + rest;
            &&& entry_rest(t, "max_tokens"@) is Some
            &&& take_int(entry_rest(t, "max_tokens"@)->0) == Some((n, rest))
        }),
{
    reveal_strlit(" = ");
    let t = "max_tokens"@ + " = "@ + dec_int(n) + rest;
    let after = " = "@ + dec_int(n) + rest;
    assert(t =~= "max_tokens"@ + after);
    lemma_expect_pre_concat("max_tokens"@, after);
    assert(after[0] == ' ');
    assert(after[1] == '=');
    assert(after[2] == ' ');
    assert(skip_sp(after) == skip_sp(after.skip(1))) by {
        assert(is_sp(after[0]));
    }
    assert(after.skip(1)[0] == '=');
    assert(skip_sp(after.skip(1)) == after.skip(1));
    assert(after.skip(1).skip(1) =~= after.skip(2));
    assert(after.skip(2)[0] == ' ');
    assert(skip_sp(after.skip(2)) == skip_sp(after.skip(2).skip(1)));
    assert(after.skip(2).skip(1) =~= after.skip(3));
    if n >= 0 {
        lemma_dec_nat_digits(n);
    } else {
        lemma_dec_nat_digits(-n);
    }
    assert(after.skip(3) =~= dec_int(n) + rest);
    assert((dec_int(n) + rest)[0] == dec_int(n)[0]);
    assert(!is_sp(dec_int(n)[0]));
    assert(skip_sp(after.skip(3)) == after.skip(3));
    assert(entry_rest(t, "max_tokens"@) == Some(after.skip(3)));
    lemma_take_int_dec(n, rest);
}

proof fn lemma_entry_key_mismatch(t: Seq<char>, key: Seq<char>, i: int)
    requires
        0 <= i < key.len(),
        key.len() <= t.len() ==> t[i] != key[i],
    ensures
        entry_rest(t, key) is None,
{
    if key.len() <= t.len() {
        assert(t.take(key.len() as int)[i] != key[i]);
    }
}

/// Saving any settings and loading the written text back yields the same
/// settings: the store never loses or distorts a field it wrote.
#[verifier::rlimit(60)]
pub proof fn lemma_save_load_roundtrip(m: SettingsView)
    requires
        -0x8000_0000 <= m.max_tokens <= 0x7fff_ffff,
    ensures
        parse_view(render_view(m)) == Some(m),
        load_view(Some(render_view(m))) == m,
{
    reveal_strlit("[api]\n");
    reveal_strlit("[api]");
    reveal_strlit("token = \"");
    reveal_strlit("token");
    reveal_strlit("url = \"");
    reveal_strlit("url");
    reveal_strlit("model = \"");
    reveal_strlit("model");
    reveal_strlit("max_tokens = ");
    reveal_strlit("max_tokens");
    reveal_strlit(" = \"");
    reveal_strlit(" = ");
    reveal_strlit("\"\n");
    let nl: Seq<char> = seq!['\n'];
    let t4 = "max_tokens"@ + " = "@ + dec_int(m.max_tokens) + nl;
    let t3 = "model"@ + " = \""@ + escape_text(m.model) + "\"\n"@ + t4;
    let t2 = "url"@ + " = \""@ + escape_text(m.url) + "\"\n"@ + t3;
    let t1 = "token"@ + " = \""@ + escape_text(m.token) + "\"\n"@ + t2;
    let t0 = render_view(m);
    assert(t0 =~= "[api]"@ + (nl + t1));
    assert(t0[0] == '[');
    assert(skip_blank(t0) == t0);
    lemma_expect_pre_concat("[api]"@, nl + t1);
    let r = nl + t1;
    assert(r[0] == '\n');
    assert(skip_sp(r) == r);
    // the token entry
    assert(r.skip(1) =~= t1);
    assert(t1[0] == 't');
    assert(skip_blank(r) == skip_blank(t1));
    assert(skip_blank(t1) == t1);
    lemma_entry_string_step("token"@, m.token, t2);
    // the url entry
    assert((nl + t2).skip(1) =~= t2);
    assert(t2[0] == 'u');
    assert(skip_blank(nl + t2) == skip_blank(t2));
    assert(skip_blank(t2) == t2);
    lemma_entry_key_mismatch(t2, "token"@, 0);
    lemma_entry_string_step("url"@, m.url, t3);
    // the model entry
    assert((nl + t3).skip(1) =~= t3);
    assert(t3[0] == 'm');
    assert(skip_blank(nl + t3) == skip_blank(t3));
    assert(skip_blank(t3) == t3);
    lemma_entry_key_mismatch(t3, "token"@, 0);
    lemma_entry_key_mismatch(t3, "url"@, 0);
    lemma_entry_string_step("model"@, m.model, t4);
    // the token-cap entry
    assert((nl + t4).skip(1) =~= t4);
    assert(t4[0] == 'm');
    assert(t4[1] == 'a');
    assert(skip_blank(nl + t4) == skip_blank(t4));
    assert(skip_blank(t4) == t4);
    lemma_entry_key_mismatch(t4, "token"@, 0);
    lemma_entry_key_mismatch(t4, "url"@, 0);
    lemma_entry_key_mismatch(t4, "model"@, 1);
    lemma_entry_int_step(m.max_tokens, nl);
    // nothing after the last line
    assert(nl.skip(1) =~= Seq::<char>::empty());
    assert(skip_blank(nl) == skip_blank(nl.skip(1)));
    assert(skip_blank(Seq::<char>::empty()) == Seq::<char>::empty());
    // the whole walk, one entry at a time
    let acc1 = PartialSettings {
        token: Some(m.token),
        url: None,
        model: None,
        max_tokens: None,
    };
    let acc2 = PartialSettings {
        token: Some(m.token),
        url: Some(m.url),
        model: None,
        max_tokens: None,
    };
    let acc3 = PartialSettings {
        token: Some(m.token),
        url: Some(m.url),
        model: Some(m.model),
        max_tokens: None,
    };
    let acc4 = PartialSettings {
        token: Some(m.token),
        url: Some(m.url),
        model: Some(m.model),
        max_tokens: Some(m.max_tokens),
    };
    assert(parse_view(t0) == parse_entries(r, no_fields()));
    assert(parse_entries(r, no_fields()) == parse_entries(nl + t2, acc1));
    assert(parse_entries(nl + t2, acc1) == parse_entries(nl + t3, acc2));
    assert(parse_entries(nl + t3, acc2) == parse_entries(nl + t4, acc3));
    assert(parse_entries(nl + t4, acc3) == parse_entries(nl, acc4));
    assert(parse_entries(nl, acc4) == finish(acc4));
    assert(parse_view(render_view(m)) == Some(
        SettingsView { token: m.token, url: m.url, model: m.model, max_tokens: m.max_tokens },
    ));
    assert(SettingsView {
        token: m.token,
        url: m.url,
        model: m.model,
        max_tokens: m.max_tokens,
    } =~= m);
}

/// What a configuration override does: the three string keys replace their
/// field with the given text; the token-cap key parses the text as a signed
/// 32-bit number and keeps the old cap when it cannot; any other key is
/// rejected and changes nothing.
pub open spec fn override_view(m: SettingsView, key: Seq<char>, value: Seq<char>) -> Option<
    SettingsView,
> {
    if key == "api.token"@ {
        Some(SettingsView { token: value, ..m })
    } else if key == "api.url"@ {
        Some(SettingsView { url: value, ..m })
    } else if key == "api.model"@ {
        Some(SettingsView { model: value, ..m })
    } else if key == "api.max_tokens"@ {
        Some(
            SettingsView {
                max_tokens: match spec_parse_i32(value) {
                    Some(v) => v,
                    None => m.max_tokens,
                },
                ..m
            },
        )
    } else {
        None
    }
}

/// Applies one `config <key> <value>` override in memory; `true` when the key
/// was recognised.
pub fn apply_override(s: &mut Settings, key: &str, value: &str) -> (r: bool)
    ensures
        match override_view(old(s)@, key@, value@) {
            Some(m) => r == true && final(s)@ == m,
            None => r == false && *final(s) == *old(s),
        },
{
    if crate::text::str_eq(key, "api.token") {
        s.token = value.to_owned();
        true
    } else if crate::text::str_eq(key, "api.url") {
        s.url = value.to_owned();
        true
    } else if crate::text::str_eq(key, "api.model") {
        s.model = value.to_owned();
        true
    } else if crate::text::str_eq(key, "api.max_tokens") {
        match parse_i32(value) {
            Some(v) => {
                s.max_tokens = v;
            },
            None => {},
        }
        true
    } else {
        false
    }
}

} // verus!
