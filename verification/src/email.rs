//! Turning an email body into plain text: HTML tags (and the contents of
//! style and script elements) are dropped, the common character entities are
//! decoded, and runs of whitespace are collapsed.
use vstd::prelude::*;
use crate::text::{
    is_whitespace, is_ws, push_char, same_text, skip_ws,
    skip_ws_back, starts_with, starts_with_exec, to_chars, trim, trim_end, trim_start,
};

verus! {

/// `c` with `A`–`Z` made lower case (std's `char::to_ascii_lowercase`).
pub open spec fn ascii_lower(c: char) -> char {
    if 'A' <= c && c <= 'Z' {
        ((c as u32) + 32) as char
    } else {
        c
    }
}

pub(crate) fn ascii_lower_char(c: char) -> (r: char)
    ensures
        r == ascii_lower(c),
{
    if 'A' <= c && c <= 'Z' {
        let u = ((c as u32) + 32) as u8;
        u as char
    } else {
        c
    }
}

/// Where a tag name that would begin at `j` begins: past a `/`, if there is one.
pub open spec fn tag_name_start(s: Seq<char>, j: int) -> int {
    if 0 <= j < s.len() && s[j] == '/' {
        j + 1
    } else {
        j
    }
}

/// The first position from `j` on that holds whitespace or `>`, or the end.
pub open spec fn tag_name_end(s: Seq<char>, j: int) -> int
    decreases s.len() - j,
{
    if j < 0 || j >= s.len() || is_ws(s[j]) || s[j] == '>' {
        j
    } else {
        tag_name_end(s, j + 1)
    }
}

/// The name of the tag whose name would begin at `j` (just after a `<`), in
/// ASCII lower case.
pub open spec fn tag_name(s: Seq<char>, j: int) -> Seq<char> {
    let a = tag_name_start(s, j);
    let b = tag_name_end(s, a);
    Seq::new((b - a) as nat, |k: int| ascii_lower(s[a + k]))
}

/// The first position from `i` on that holds `>`, or the end.
pub open spec fn find_gt(s: Seq<char>, i: int) -> int
    decreases s.len() - i,
{
    if i < 0 || i >= s.len() || s[i] == '>' {
        i
    } else {
        find_gt(s, i + 1)
    }
}

/// Just past the `>` found from `i` on, or the end when there is none.
pub open spec fn past_gt(s: Seq<char>, i: int) -> int {
    let k = find_gt(s, i);
    if k < s.len() {
        k + 1
    } else {
        k
    }
}

/// The at most `n` characters of `s` that follow position `k`.
pub open spec fn after_at(s: Seq<char>, k: int, n: int) -> Seq<char> {
    s.subrange(k + 1, if k + 1 + n <= s.len() { k + 1 + n } else { s.len() as int })
}

/// A `<` at `k` opens the closing tag `closer` ("/style" or "/script"): the
/// (at most) `closer.len()` characters after it, in lower case (std's
/// `to_lowercase`), are `closer`.
pub open spec fn closes_at(s: Seq<char>, k: int, closer: Seq<char>) -> bool {
    &&& 0 <= k < s.len()
    &&& s[k] == '<'
    &&& lowercase(after_at(s, k, closer.len() as int)) == closer
}

/// Where scanning from `i` for the closing tag `closer` ends: just past the
/// `>` that ends it, or the end of the text when it never comes.
pub open spec fn skip_closing(s: Seq<char>, i: int, closer: Seq<char>) -> int
    decreases s.len() - i,
{
    if i < 0 || i >= s.len() {
        if i < 0 { 0 } else { i }
    } else if closes_at(s, i, closer) {
        past_gt(s, i)
    } else {
        skip_closing(s, i + 1, closer)
    }
}

/// The text of `s` from position `i` on, with its tags removed; the contents
/// of `style` and `script` elements are removed with their tags.
pub open spec fn untagged_from(s: Seq<char>, i: int) -> Seq<char>
    decreases s.len() - i,
{
    if i < 0 || i >= s.len() {
        Seq::empty()
    } else if s[i] != '<' {
        seq![s[i]] + untagged_from(s, i + 1)
    } else {
        let name = tag_name(s, i + 1);
        let next = if name == "style"@ || name == "script"@ {
            skip_closing(s, i + 1, seq!['/'] + name)
        } else {
            past_gt(s, i + 1)
        };
        if i < next <= s.len() {
            untagged_from(s, next)
        } else {
            Seq::empty()
        }
    }
}

/// The text of `s` with its tags removed.
pub open spec fn untagged(s: Seq<char>) -> Seq<char> {
    untagged_from(s, 0)
}

/// The name of the tag whose name would begin at `start`, lower-cased.
pub fn read_tag_name(chars: &Vec<char>, start: usize, len: usize) -> (name: String)
    requires
        len == chars.len(),
        start <= len,
    ensures
        name@ == tag_name(chars@, start as int),
{
    let mut name = String::new();
    let mut j = start;
    if j < len && chars[j] == '/' {
        j += 1;
    }
    let ghost a = j as int;
    assert(a == tag_name_start(chars@, start as int));
    while j < len && !is_whitespace(chars[j]) && chars[j] != '>'
        invariant
            len == chars.len(),
            a <= j <= len,
            tag_name_end(chars@, a) == tag_name_end(chars@, j as int),
            name@ == Seq::new((j - a) as nat, |k: int| ascii_lower(chars@[a + k])),
        decreases len - j,
    {
        push_char(&mut name, ascii_lower_char(chars[j]));
        j += 1;
        assert(name@ =~= Seq::new((j - a) as nat, |k: int| ascii_lower(chars@[a + k])));
    }
    name
}

/// Whether a `<` at `k` opens the closing tag `closer`.
fn closes_at_exec(chars: &Vec<char>, k: usize, closer: &Vec<char>) -> (r: bool)
    ensures
        r == closes_at(chars@, k as int, closer@),
{
    if k >= chars.len() || chars[k] != '<' {
        return false;
    }
    let end = if closer.len() <= chars.len() - k - 1 {
        k + 1 + closer.len()
    } else {
        chars.len()
    };
    let rest = crate::text::from_char_range(chars, k + 1, end);
    let lower = to_lowercase(rest.as_str());
    let closer_text = crate::text::from_char_range(closer, 0, closer.len());
    proof {
        assert(closer@.subrange(0, closer@.len() as int) == closer@);
    }
    same_text(lower.as_str(), closer_text.as_str())
}

/// Just past the `>` found from `i` on, or `len` when there is none.
fn skip_past_gt(chars: &Vec<char>, start: usize, len: usize) -> (r: usize)
    requires
        len == chars.len(),
        start <= len,
    ensures
        r == past_gt(chars@, start as int),
        start <= r <= len,
{
    let mut i = start;
    while i < len && chars[i] != '>'
        invariant
            len == chars.len(),
            start <= i <= len,
            find_gt(chars@, i as int) == find_gt(chars@, start as int),
        decreases len - i,
    {
        i += 1;
    }
    if i < len {
        i + 1
    } else {
        i
    }
}

} // verus!

verus! {

/// Where scanning from `i` for the closing tag of `tag` ends: just past the
/// `>` of `</tag>` (matched without regard to case), or `len`.
pub fn skip_to_closing_tag(chars: &Vec<char>, start: usize, len: usize, tag: &str) -> (r: usize)
    requires
        len == chars.len(),
        start <= len,
    ensures
        r == skip_closing(chars@, start as int, seq!['/'] + tag@),
        start <= r <= len,
{
    let mut closer = String::new();
    push_char(&mut closer, '/');
    crate::text::push_str(&mut closer, tag);
    let closer = to_chars(closer.as_str());
    assert(closer@ =~= seq!['/'] + tag@);
    let mut i = start;
    while i < len
        invariant
            len == chars.len(),
            start <= i <= len,
            closer@ == seq!['/'] + tag@,
            skip_closing(chars@, i as int, closer@) == skip_closing(chars@, start as int, closer@),
        decreases len - i,
    {
        if closes_at_exec(chars, i, &closer) {
            return skip_past_gt(chars, i, len);
        }
        i += 1;
    }
    i
}

} // verus!

verus! {

/// `s` with its tags removed (see `untagged`).
pub fn strip_tags(s: &str) -> (r: String)
    ensures
        r@ == untagged(s@),
{
    let chars = to_chars(s);
    let len = chars.len();
    let mut out = String::new();
    let mut i: usize = 0;
    while i < len
        invariant
            len == chars.len(),
            chars@ == s@,
            i <= len,
            out@ + untagged_from(chars@, i as int) == untagged(chars@),
        decreases len - i,
    {
        let ghost old_i = i as int;
        if chars[i] != '<' {
            proof {
                assert(untagged_from(chars@, old_i) == seq![chars@[old_i]] + untagged_from(
                    chars@,
                    old_i + 1,
                ));
                assert(out@.push(chars@[old_i]) + untagged_from(chars@, old_i + 1) == out@
                    + untagged_from(chars@, old_i));
            }
            push_char(&mut out, chars[i]);
            i += 1;
        } else {
            i += 1;
            let tag = read_tag_name(&chars, i, len);
            if crate::text::same_text(tag.as_str(), "style") || crate::text::same_text(
                tag.as_str(),
                "script",
            ) {
                i = skip_to_closing_tag(&chars, i, len, tag.as_str());
            } else {
                i = skip_past_gt(&chars, i, len);
            }
            proof {
                assert(untagged_from(chars@, old_i) == untagged_from(chars@, i as int));
            }
        }
    }
    out
}

/// `t` with every occurrence of `pat`, taken from left to right without
/// overlaps, replaced by `rep` (std's `str::replace`).
pub open spec fn replace_all(t: Seq<char>, pat: Seq<char>, rep: Seq<char>) -> Seq<char>
    decreases t.len(),
{
    if t.len() == 0 {
        Seq::empty()
    } else if 0 < pat.len() <= t.len() && t.take(pat.len() as int) == pat {
        rep + replace_all(t.skip(pat.len() as int), pat, rep)
    } else {
        seq![t[0]] + replace_all(t.drop_first(), pat, rep)
    }
}

/// `s` with the entities `&amp;`, `&lt;`, `&gt;`, `&quot;` and `&nbsp;`
/// decoded, one after the other in that order (so `&amp;lt;` becomes `<`).
pub open spec fn decoded(s: Seq<char>) -> Seq<char> {
    let a = replace_all(s, "&amp;"@, "&"@);
    let b = replace_all(a, "&lt;"@, "<"@);
    let c = replace_all(b, "&gt;"@, ">"@);
    let d = replace_all(c, "&quot;"@, "\""@);
    replace_all(d, "&nbsp;"@, " "@)
}

/// `s` with every occurrence of `pat` replaced by `rep`.
pub fn replace_text(s: &str, pat: &str, rep: &str) -> (r: String)
    ensures
        r@ == replace_all(s@, pat@, rep@),
{
    let v = to_chars(s);
    let p = to_chars(pat);
    let mut out = String::new();
    let mut i: usize = 0;
    proof {
        assert(v@.skip(0) == v@);
        assert(out@ + replace_all(v@, pat@, rep@) =~= replace_all(v@, pat@, rep@));
    }
    while i < v.len()
        invariant
            v@ == s@,
            p@ == pat@,
            i <= v.len(),
            out@ + replace_all(v@.skip(i as int), pat@, rep@) == replace_all(s@, pat@, rep@),
        decreases v.len() - i,
    {
        let ghost t = v@.skip(i as int);
        if p.len() > 0 && crate::text::occurs_at_exec(&v, &p, i) {
            proof {
                assert(v@.subrange(i as int, i + p@.len()) == t.take(p@.len() as int));
                assert(t.skip(p@.len() as int) == v@.skip(i + p@.len()));
            }
            crate::text::push_str(&mut out, rep);
            i += p.len();
        } else {
            proof {
                if 0 < p@.len() <= t.len() {
                    assert(v@.subrange(i as int, i + p@.len()) == t.take(p@.len() as int));
                }
                assert(t.drop_first() == v@.skip(i + 1));
                assert(t[0] == v@[i as int]);
            }
            push_char(&mut out, v[i]);
            i += 1;
        }
    }
    proof {
        assert(v@.skip(v@.len() as int).len() == 0);
    }
    out
}

/// `s` with its common entities decoded (see `decoded`).
pub fn decode_entities(s: &str) -> (r: String)
    ensures
        r@ == decoded(s@),
{
    let a = replace_text(s, "&amp;", "&");
    let b = replace_text(a.as_str(), "&lt;", "<");
    let c = replace_text(b.as_str(), "&gt;", ">");
    let d = replace_text(c.as_str(), "&quot;", "\"");
    replace_text(d.as_str(), "&nbsp;", " ")
}

/// `s` with each run of whitespace replaced by one space; `after_space` says
/// whether a run was already under way when `s` begins.
pub open spec fn squeeze(s: Seq<char>, after_space: bool) -> Seq<char>
    decreases s.len(),
{
    if s.len() == 0 {
        Seq::empty()
    } else if is_ws(s[0]) {
        if after_space {
            squeeze(s.drop_first(), true)
        } else {
            seq![' '] + squeeze(s.drop_first(), true)
        }
    } else {
        seq![s[0]] + squeeze(s.drop_first(), false)
    }
}

/// `s` with every run of whitespace made a single space, and no whitespace
/// at either end.
pub open spec fn collapsed(s: Seq<char>) -> Seq<char> {
    trim(squeeze(s, false))
}

/// `s` with its whitespace collapsed (see `collapsed`).
pub fn collapse_whitespace(s: &str) -> (r: String)
    ensures
        r@ == collapsed(s@),
{
    let v = to_chars(s);
    let mut out: Vec<char> = Vec::new();
    let mut prev_was_space = false;
    let mut i: usize = 0;
    proof {
        assert(v@.skip(0) == v@);
        assert(out@ + squeeze(v@, false) =~= squeeze(v@, false));
    }
    while i < v.len()
        invariant
            v@ == s@,
            i <= v.len(),
            out@ + squeeze(v@.skip(i as int), prev_was_space) == squeeze(s@, false),
        decreases v.len() - i,
    {
        proof {
            let t = v@.skip(i as int);
            assert(t.drop_first() == v@.skip(i + 1));
            assert(t[0] == v@[i as int]);
        }
        let c = v[i];
        if is_whitespace(c) {
            if !prev_was_space {
                out.push(' ');
            }
            prev_was_space = true;
        } else {
            out.push(c);
            prev_was_space = false;
        }
        i += 1;
    }
    proof {
        assert(v@.skip(v@.len() as int).len() == 0);
        assert(out@ == squeeze(s@, false));
    }
    let a = skip_ws(&out, 0, out.len());
    let b = skip_ws_back(&out, a, out.len());
    proof {
        assert(out@.subrange(0, out@.len() as int) == out@);
    }
    crate::text::from_char_range(&out, a, b)
}

/// The plain text of an HTML fragment: tags removed, entities decoded,
/// whitespace collapsed.
pub open spec fn html_text(s: Seq<char>) -> Seq<char> {
    collapsed(decoded(untagged(s)))
}

/// The plain text of an HTML fragment (see `html_text`).
pub fn strip_html(s: &str) -> (r: String)
    ensures
        r@ == html_text(s@),
{
    let s = strip_tags(s);
    let s = decode_entities(s.as_str());
    collapse_whitespace(s.as_str())
}

} // verus!

verus! {

/// One part of a parsed message, as plain values: its MIME type, its body
/// decoded to text (`None` where it could not be decoded), its headers as
/// (key, value) pairs in the order they appear, and its subparts.
pub struct MailPart {
    pub mimetype: String,
    pub body: Option<String>,
    pub headers: Vec<(String, String)>,
    pub subparts: Vec<MailPart>,
}

/// mailparse's parsed message, `mailparse::ParsedMail`, carried opaque.
#[verifier::external_type_specification]
#[verifier::external_body]
pub struct ExParsedMail<'a>(mailparse::ParsedMail<'a>);

/// What mailparse makes of the raw message `raw`: `None` where it refuses
/// the message.
pub uninterp spec fn parsed_message(raw: Seq<u8>) -> Option<MailPart>;

/// The plain-value form of a part parsed by mailparse: its `ctype.mimetype`,
/// `get_body()` (`None` on an error), its headers' `get_key()` and
/// `get_value()`, and its subparts in the same form. It only converts, so
/// nothing is stated of it; `parse_message` speaks for the whole.
#[verifier::external_body]
fn part_of(p: &mailparse::ParsedMail) -> MailPart {
    MailPart {
        mimetype: p.ctype.mimetype.clone(),
        body: p.get_body().ok(),
        headers: p.headers.iter().map(|h| (h.get_key(), h.get_value())).collect(),
        subparts: p.subparts.iter().map(part_of).collect(),
    }
}

/// Parses the raw message `raw` with mailparse's `parse_mail` and gives it
/// as plain values. Claimed: the result is a function of the bytes alone
/// (`parsed_message`); a refused message gives `None`.
#[verifier::external_body]
pub(crate) fn parse_message(raw: &[u8]) -> (r: Option<MailPart>)
    ensures
        r == parsed_message(raw@),
{
    mailparse::parse_mail(raw).ok().map(|p| part_of(&p))
}

} // verus!

verus! {

/// The text of a part's body; empty where it could not be decoded.
pub open spec fn body_text(p: MailPart) -> Seq<char> {
    match p.body {
        Some(b) => b@,
        None => Seq::empty(),
    }
}

/// The readable text of a message part: a plain-text part's body; for a
/// multipart part, the first non-empty text among its subparts, else the
/// stripped body of its first HTML subpart, else nothing; for a lone HTML
/// part, its body stripped of markup; for anything else, nothing.
pub open spec fn body_of(p: MailPart) -> Seq<char>
    decreases p, p.subparts.len() + 1,
{
    if p.mimetype@ == "text/plain"@ {
        body_text(p)
    } else if starts_with(p.mimetype@, "multipart/"@) {
        body_from_subparts(p, 0)
    } else if p.mimetype@ == "text/html"@ && p.subparts.len() == 0 {
        html_text(body_text(p))
    } else {
        Seq::empty()
    }
}

/// The first non-empty text among the subparts of `p` from index `i` on;
/// where all are empty, the stripped body of the first HTML subpart.
pub open spec fn body_from_subparts(p: MailPart, i: int) -> Seq<char>
    decreases p, p.subparts.len() - i,
{
    if 0 <= i < p.subparts.len() {
        let b = body_of(p.subparts[i]);
        if b.len() > 0 {
            b
        } else {
            body_from_subparts(p, i + 1)
        }
    } else {
        first_html_from(p.subparts@, 0)
    }
}

/// The stripped body of the first part of `parts` from index `i` on whose
/// type is HTML, or nothing.
pub open spec fn first_html_from(parts: Seq<MailPart>, i: int) -> Seq<char>
    decreases parts.len() - i,
{
    if 0 <= i < parts.len() {
        if parts[i].mimetype@ == "text/html"@ {
            html_text(body_text(parts[i]))
        } else {
            first_html_from(parts, i + 1)
        }
    } else {
        Seq::empty()
    }
}

/// A part's body as text, empty where it could not be decoded.
fn body_or_empty(p: &MailPart) -> (r: String)
    ensures
        r@ == body_text(*p),
{
    match &p.body {
        Some(b) => b.clone(),
        None => String::new(),
    }
}

/// The readable text of a message part (see `body_of`).
pub fn extract_body(p: &MailPart) -> (r: String)
    ensures
        r@ == body_of(*p),
    decreases p, p.subparts.len() + 1,
{
    proof {
        reveal_strlit("text/plain");
        reveal_strlit("text/html");
        reveal_strlit("multipart/");
    }
    if same_text(p.mimetype.as_str(), "text/plain") {
        return body_or_empty(p);
    }
    if starts_with_exec(p.mimetype.as_str(), "multipart/") {
        let mut i: usize = 0;
        while i < p.subparts.len()
            invariant
                i <= p.subparts.len(),
                body_from_subparts(*p, i as int) == body_of(*p),
            decreases p.subparts.len() - i,
        {
            let b = extract_body(&p.subparts[i]);
            if !b.as_str().is_empty() {
                return b;
            }
            i += 1;
        }
        let mut j: usize = 0;
        while j < p.subparts.len()
            invariant
                j <= p.subparts.len(),
                first_html_from(p.subparts@, j as int) == body_of(*p),
            decreases p.subparts.len() - j,
        {
            if same_text(p.subparts[j].mimetype.as_str(), "text/html") {
                let raw = body_or_empty(&p.subparts[j]);
                return strip_html(raw.as_str());
            }
            j += 1;
        }
        return String::new();
    }
    if same_text(p.mimetype.as_str(), "text/html") && p.subparts.len() == 0 {
        let raw = body_or_empty(p);
        return strip_html(raw.as_str());
    }
    String::new()
}

} // verus!

verus! {

/// What std's `str::to_lowercase` gives for `s`.
pub uninterp spec fn lowercase(s: Seq<char>) -> Seq<char>;

/// `s` in lower case, by std's `str::to_lowercase`. Claimed: the result is a
/// function of `s` alone (`lowercase`); Unicode's case mapping is not
/// written out.
#[verifier::external_body]
pub(crate) fn to_lowercase(s: &str) -> (r: String)
    ensures
        r@ == lowercase(s@),
{
    s.to_lowercase()
}

/// The value of the first header of `headers` whose key equals `name` when
/// both are put in lower case.
pub open spec fn header_value(headers: Seq<(String, String)>, name: Seq<char>) -> Option<Seq<char>>
    decreases headers.len(),
{
    if headers.len() == 0 {
        None
    } else if lowercase(headers[0].0@) == lowercase(name) {
        Some(headers[0].1@)
    } else {
        header_value(headers.skip(1), name)
    }
}

/// The value of the first header of `p` named `name`, whatever the case of
/// either (see `header_value`).
pub fn find_header(p: &MailPart, name: &str) -> (r: Option<String>)
    ensures
        match r {
            Some(v) => header_value(p.headers@, name@) == Some(v@),
            None => header_value(p.headers@, name@) is None,
        },
{
    let needle = to_lowercase(name);
    let mut i: usize = 0;
    assert(p.headers@.skip(0) == p.headers@);
    while i < p.headers.len()
        invariant
            i <= p.headers.len(),
            needle@ == lowercase(name@),
            header_value(p.headers@.skip(i as int), name@) == header_value(p.headers@, name@),
        decreases p.headers.len() - i,
    {
        let ghost rest = p.headers@.skip(i as int);
        assert(rest[0] == p.headers@[i as int]);
        assert(rest.skip(1) == p.headers@.skip(i + 1));
        let key = to_lowercase(p.headers[i].0.as_str());
        if same_text(key.as_str(), needle.as_str()) {
            return Some(p.headers[i].1.clone());
        }
        i += 1;
    }
    None
}

} // verus!

verus! {

/// Every whitespace character of `t` is a plain space, and none is
/// followed by whitespace.
pub open spec fn spaced(t: Seq<char>) -> bool {
    &&& forall|i: int| 0 <= i < t.len() && is_ws(#[trigger] t[i]) ==> t[i] == ' '
    &&& forall|i: int| 0 <= i < t.len() - 1 && is_ws(#[trigger] t[i]) ==> !is_ws(t[i + 1])
}

/// `t` has single spaces between its words and no whitespace at either end.
pub open spec fn single_spaced(t: Seq<char>) -> bool {
    &&& spaced(t)
    &&& t.len() > 0 ==> !is_ws(t[0]) && !is_ws(t.last())
}

proof fn lemma_squeeze_spaced(s: Seq<char>, a: bool)
    ensures
        spaced(squeeze(s, a)),
        a && squeeze(s, a).len() > 0 ==> !is_ws(squeeze(s, a)[0]),
    decreases s.len(),
{
    if s.len() > 0 {
        let rest = s.drop_first();
        lemma_squeeze_spaced(rest, true);
        lemma_squeeze_spaced(rest, false);
        let q = squeeze(s, a);
        if is_ws(s[0]) {
            if !a {
                let r = squeeze(rest, true);
                assert(q == seq![' '] + r);
                assert forall|i: int| 0 <= i < q.len() && is_ws(#[trigger] q[i]) implies q[i] == ' ' by {
                    if i > 0 {
                        assert(q[i] == r[i - 1]);
                    }
                }
                assert forall|i: int| 0 <= i < q.len() - 1 && is_ws(#[trigger] q[i]) implies !is_ws(q[i + 1]) by {
                    assert(q[i + 1] == r[i]);
                    if i > 0 {
                        assert(q[i] == r[i - 1]);
                    }
                }
            }
        } else {
            let r = squeeze(rest, false);
            assert(q == seq![s[0]] + r);
            assert forall|i: int| 0 <= i < q.len() && is_ws(#[trigger] q[i]) implies q[i] == ' ' by {
                if i > 0 {
                    assert(q[i] == r[i - 1]);
                }
            }
            assert forall|i: int| 0 <= i < q.len() - 1 && is_ws(#[trigger] q[i]) implies !is_ws(q[i + 1]) by {
                assert(q[i + 1] == r[i]);
                if i > 0 {
                    assert(q[i] == r[i - 1]);
                }
            }
        }
    }
}

proof fn lemma_trim_start_spaced(x: Seq<char>)
    requires
        spaced(x),
    ensures
        spaced(trim_start(x)),
        trim_start(x).len() > 0 ==> !is_ws(trim_start(x)[0]),
    decreases x.len(),
{
    if x.len() > 0 && is_ws(x[0]) {
        let y = x.drop_first();
        assert forall|i: int| 0 <= i < y.len() && is_ws(#[trigger] y[i]) implies y[i] == ' ' by {
            assert(y[i] == x[i + 1]);
        }
        assert forall|i: int| 0 <= i < y.len() - 1 && is_ws(#[trigger] y[i]) implies !is_ws(y[i + 1]) by {
            assert(y[i] == x[i + 1] && y[i + 1] == x[i + 2]);
        }
        lemma_trim_start_spaced(y);
    }
}

proof fn lemma_trim_end_spaced(x: Seq<char>)
    requires
        spaced(x),
        x.len() > 0 ==> !is_ws(x[0]),
    ensures
        single_spaced(trim_end(x)),
    decreases x.len(),
{
    if x.len() > 0 && is_ws(x.last()) {
        let y = x.drop_last();
        assert forall|i: int| 0 <= i < y.len() && is_ws(#[trigger] y[i]) implies y[i] == ' ' by {
            assert(y[i] == x[i]);
        }
        assert forall|i: int| 0 <= i < y.len() - 1 && is_ws(#[trigger] y[i]) implies !is_ws(y[i + 1]) by {
            assert(y[i] == x[i] && y[i + 1] == x[i + 1]);
        }
        if y.len() > 0 {
            assert(y[0] == x[0]);
        }
        lemma_trim_end_spaced(y);
    }
}

proof fn lemma_squeeze_keeps(t: Seq<char>, a: bool)
    requires
        spaced(t),
        a && t.len() > 0 ==> !is_ws(t[0]),
    ensures
        squeeze(t, a) == t,
    decreases t.len(),
{
    if t.len() > 0 {
        let rest = t.drop_first();
        assert forall|i: int| 0 <= i < rest.len() && is_ws(#[trigger] rest[i]) implies rest[i] == ' ' by {
            assert(rest[i] == t[i + 1]);
        }
        assert forall|i: int| 0 <= i < rest.len() - 1 && is_ws(#[trigger] rest[i]) implies !is_ws(
            rest[i + 1],
        ) by {
            assert(rest[i] == t[i + 1] && rest[i + 1] == t[i + 2]);
        }
        if is_ws(t[0]) {
            if rest.len() > 0 {
                assert(rest[0] == t[1]);
            }
            lemma_squeeze_keeps(rest, true);
            assert(t =~= seq![' '] + rest);
        } else {
            lemma_squeeze_keeps(rest, false);
            assert(t =~= seq![t[0]] + rest);
        }
    }
}

/// Law: collapsing whitespace leaves single spaces between words and no
/// whitespace at either end.
pub proof fn collapsed_is_single_spaced(s: Seq<char>)
    ensures
        single_spaced(collapsed(s)),
{
    lemma_squeeze_spaced(s, false);
    lemma_trim_start_spaced(squeeze(s, false));
    lemma_trim_end_spaced(trim_start(squeeze(s, false)));
}

/// Law: collapsing whitespace twice changes nothing more than collapsing
/// it once.
pub proof fn collapse_whitespace_is_idempotent(s: Seq<char>)
    ensures
        collapsed(collapsed(s)) == collapsed(s),
{
    let t = collapsed(s);
    collapsed_is_single_spaced(s);
    lemma_squeeze_keeps(t, false);
    if t.len() > 0 {
        assert(trim_start(t) == t);
        assert(trim_end(t) == t);
    } else {
        assert(trim_start(t) == t);
    }
}

} // verus!
