//! HTML produced for rendered diagrams, and the clean-up of Graphviz SVG
//! output before it is inlined.

use vstd::prelude::*;
use crate::text::{chars_of, find_from, lemma_replace_all_clean_prefix, occurs_at, replace_all, occurs_at_index, white_space_run_end, white_space_run_end_at, push_char, string_of, trim, trim_chars, trim_end, trim_start};

verus! {

/// Class of the element that wraps every rendered diagram.
pub const OUTPUT_CLASS: &'static str = "mdbook-modern-dot-output";

/// Breaks out of an open mdBook heading before block diagram HTML.
pub const BLOCK_SEPARATOR: &'static str = "<!-- mdbook-modern-dot -->";

/// The four clean-up rules applied, in this order, to Graphviz SVG output.
#[derive(Clone, Copy, PartialEq, Eq, Debug)]
pub enum SvgRule {
    /// `<!DOCTYPE ...>` declarations are removed.
    Doctype,
    /// `<?xml ...?>` declarations are removed.
    XmlDeclaration,
    /// White space between a `>` and the next `<` is removed.
    GapBetweenTags,
    /// Line feeds are removed.
    LineFeed,
}

/// The length of the text that `rule` matches in `s` at `i`, or 0 where it
/// matches nothing there. These are the patterns `<!DOCTYPE [^>]+>`,
/// `<\?xml [^>]+\?>`, `>\s+<` and `\n`.
pub open spec fn rule_match_len(rule: SvgRule, s: Seq<char>, i: int) -> int {
    match rule {
        SvgRule::Doctype => {
            if occurs_at(s, i, "<!DOCTYPE "@) {
                match find_from(s, '>', i + 10) {
                    Some(q) => if q > i + 10 { q + 1 - i } else { 0 },
                    None => 0,
                }
            } else {
                0
            }
        },
        SvgRule::XmlDeclaration => {
            if occurs_at(s, i, "<?xml "@) {
                match find_from(s, '>', i + 6) {
                    Some(q) => if q - i >= 8 && s[q - 1] == '?' { q + 1 - i } else { 0 },
                    None => 0,
                }
            } else {
                0
            }
        },
        SvgRule::GapBetweenTags => {
            if 0 <= i < s.len() && s[i] == '>' {
                let j = white_space_run_end(s, i + 1);
                if j > i + 1 && j < s.len() && s[j] == '<' { j + 1 - i } else { 0 }
            } else {
                0
            }
        },
        SvgRule::LineFeed => if 0 <= i < s.len() && s[i] == '\n' { 1 } else { 0 },
    }
}

/// What a match of `rule` is replaced by.
pub open spec fn rule_replacement(rule: SvgRule) -> Seq<char> {
    match rule {
        SvgRule::GapBetweenTags => seq!['>', '<'],
        _ => Seq::empty(),
    }
}

/// `s` from position `i` on with every match of `rule`, taken from the left
/// without overlap, replaced (`Regex::replace_all`).
pub open spec fn rewrite_from(rule: SvgRule, s: Seq<char>, i: int) -> Seq<char>
    decreases s.len() - i,
{
    if i < 0 || i >= s.len() {
        Seq::empty()
    } else {
        let m = rule_match_len(rule, s, i);
        if m > 0 && i + m <= s.len() {
            rule_replacement(rule) + rewrite_from(rule, s, i + m)
        } else {
            seq![s[i]] + rewrite_from(rule, s, i + 1)
        }
    }
}

/// `s` with every match of `rule` replaced.
pub open spec fn rewrite(rule: SvgRule, s: Seq<char>) -> Seq<char> {
    rewrite_from(rule, s, 0)
}

/// Graphviz SVG output made fit to inline: declarations, white space between
/// tags and line feeds removed, then trimmed.
pub open spec fn sanitized(s: Seq<char>) -> Seq<char> {
    trim(
        rewrite(
            SvgRule::LineFeed,
            rewrite(SvgRule::GapBetweenTags, rewrite(SvgRule::XmlDeclaration, rewrite(SvgRule::Doctype, s))),
        ),
    )
}

} // verus!

verus! {

fn find_char_from(s: &Vec<char>, c: char, i: usize) -> (r: Option<usize>)
    ensures
        match r {
            Some(q) => find_from(s@, c, i as int) == Some(q as int),
            None => find_from(s@, c, i as int) is None,
        },
        r matches Some(q) ==> i <= q < s.len() && s@[q as int] == c,
{
    let mut j: usize = i;
    while j < s.len() && s[j] != c
        invariant
            i <= j,
            find_from(s@, c, i as int) == find_from(s@, c, j as int),
        decreases s.len() - j,
    {
        j += 1;
    }
    if j < s.len() {
        Some(j)
    } else {
        None
    }
}

fn rule_match_len_at(rule: SvgRule, s: &Vec<char>, i: usize, doctype: &Vec<char>, xml: &Vec<char>) -> (m: usize)
    requires
        i < s.len(),
        doctype@ == "<!DOCTYPE "@,
        xml@ == "<?xml "@,
    ensures
        m as int == rule_match_len(rule, s@, i as int),
{
    proof {
        reveal_strlit("<!DOCTYPE ");
        reveal_strlit("<?xml ");
    }
    match rule {
        SvgRule::Doctype => {
            if occurs_at_index(s, i, doctype) {
                match find_char_from(s, '>', i + 10) {
                    Some(q) => if q > i + 10 { q + 1 - i } else { 0 },
                    None => 0,
                }
            } else {
                0
            }
        },
        SvgRule::XmlDeclaration => {
            if occurs_at_index(s, i, xml) {
                match find_char_from(s, '>', i + 6) {
                    Some(q) => if q - i >= 8 && s[q - 1] == '?' { q + 1 - i } else { 0 },
                    None => 0,
                }
            } else {
                0
            }
        },
        SvgRule::GapBetweenTags => {
            if s[i] == '>' {
                let j = white_space_run_end_at(s, i + 1);
                if j > i + 1 && j < s.len() && s[j] == '<' { j + 1 - i } else { 0 }
            } else {
                0
            }
        },
        SvgRule::LineFeed => if s[i] == '\n' { 1 } else { 0 },
    }
}

/// `s` with every match of `rule` replaced.
pub fn rewrite_chars(rule: SvgRule, s: &Vec<char>) -> (r: Vec<char>)
    ensures
        r@ == rewrite(rule, s@),
{
    let doctype = chars_of("<!DOCTYPE ");
    let xml = chars_of("<?xml ");
    let mut out: Vec<char> = Vec::new();
    let mut i: usize = 0;
    while i < s.len()
        invariant
            i <= s.len(),
            doctype@ == "<!DOCTYPE "@,
            xml@ == "<?xml "@,
            out@ + rewrite_from(rule, s@, i as int) == rewrite(rule, s@),
        decreases s.len() - i,
    {
        let m = rule_match_len_at(rule, s, i, &doctype, &xml);
        let ghost before = out@;
        if m > 0 && m <= s.len() - i {
            if let SvgRule::GapBetweenTags = rule {
                out.push('>');
                out.push('<');
            }
            assert(out@ == before + rule_replacement(rule));
            i += m;
        } else {
            out.push(s[i]);
            i += 1;
        }
    }
    assert(out@ + rewrite_from(rule, s@, i as int) == out@);
    out
}

/// Graphviz SVG output made fit to inline (see [`sanitized`]).
pub fn sanitize_svg(output: String) -> (r: String)
    ensures
        r@ == sanitized(output@),
{
    let s = chars_of(output.as_str());
    let s = rewrite_chars(SvgRule::Doctype, &s);
    let s = rewrite_chars(SvgRule::XmlDeclaration, &s);
    let s = rewrite_chars(SvgRule::GapBetweenTags, &s);
    let s = rewrite_chars(SvgRule::LineFeed, &s);
    let t = trim_chars(&s);
    string_of(&t)
}

} // verus!

verus! {

/// What one character becomes in escaped HTML attribute text.
pub open spec fn escape_piece(c: char) -> Seq<char> {
    if c == '&' {
        "&amp;"@
    } else if c == '"' {
        "&quot;"@
    } else if c == '<' {
        "&lt;"@
    } else if c == '>' {
        "&gt;"@
    } else {
        seq![c]
    }
}

/// `s` with `&`, `"`, `<` and `>` written as character references.
pub open spec fn escaped(s: Seq<char>) -> Seq<char>
    decreases s.len(),
{
    if s.len() == 0 {
        Seq::empty()
    } else {
        escaped(s.drop_last()) + escape_piece(s.last())
    }
}

/// `value` with `&`, `"`, `<` and `>` written as character references.
pub fn escape_html(value: &str) -> (r: String)
    ensures
        r@ == escaped(value@),
{
    let mut r = String::new();
    for c in it: value.chars()
        invariant
            it.seq() == value@,
            r@ == escaped(value@.take(it.index() as int)),
    {
        let ghost i = it.index() as int;
        assert(value@.take(i + 1).drop_last() == value@.take(i));
        if c == '&' {
            r.append("&amp;");
        } else if c == '"' {
            r.append("&quot;");
        } else if c == '<' {
            r.append("&lt;");
        } else if c == '>' {
            r.append("&gt;");
        } else {
            push_char(&mut r, c);
        }
    }
    assert(value@.take(value@.len() as int) == value@);
    r
}

/// The HTML of an inline diagram.
pub open spec fn inline_html(svg: Seq<char>) -> Seq<char> {
    "<div class=\""@ + OUTPUT_CLASS@ + "\">"@ + sanitized(svg) + "</div>"@
}

/// The HTML of an inline diagram with a light and a dark rendering.
pub open spec fn themed_inline_html(light_svg: Seq<char>, dark_svg: Seq<char>, wrapper_class: Seq<char>) -> Seq<char> {
    "<div class=\""@ + OUTPUT_CLASS@ + " "@ + wrapper_class + "\"><div class=\"diagram-light\">"@
        + sanitized(light_svg) + "</div><div class=\"diagram-dark\">"@ + sanitized(dark_svg)
        + "</div></div>"@
}

/// The HTML that shows a light and a dark rendered file.
pub open spec fn themed_file_html(wrapper_class: Seq<char>, light_src: Seq<char>, dark_src: Seq<char>, alt: Seq<char>) -> Seq<char> {
    "<p class=\""@ + wrapper_class + "\"><img class=\"diagram-light\" src=\""@ + escaped(light_src)
        + "\" alt=\""@ + escaped(alt) + "\"><img class=\"diagram-dark\" src=\""@ + escaped(dark_src)
        + "\" alt=\""@ + escaped(alt) + "\"></p>"@
}

/// Wraps a rendered SVG in the output `div`, cleaned up by [`sanitize_svg`].
pub fn inline_diagram(svg: String) -> (r: String)
    ensures
        r@ == inline_html(svg@),
{
    let mut r = String::from_str("<div class=\"");
    r.append(OUTPUT_CLASS);
    r.append("\">");
    let body = sanitize_svg(svg);
    r.append(body.as_str());
    r.append("</div>");
    r
}

/// Wraps a light and a dark rendered SVG, each in its own `div`, inside the
/// output `div` that also carries `wrapper_class`.
pub fn themed_inline_diagram(light_svg: String, dark_svg: String, wrapper_class: &str) -> (r: String)
    ensures
        r@ == themed_inline_html(light_svg@, dark_svg@, wrapper_class@),
{
    let light = sanitize_svg(light_svg);
    let dark = sanitize_svg(dark_svg);
    let mut r = String::from_str("<div class=\"");
    r.append(OUTPUT_CLASS);
    r.append(" ");
    r.append(wrapper_class);
    r.append("\"><div class=\"diagram-light\">");
    r.append(light.as_str());
    r.append("</div><div class=\"diagram-dark\">");
    r.append(dark.as_str());
    r.append("</div></div>");
    r
}

/// A paragraph with an image for each of the light and the dark rendered
/// files; sources and alternative text are escaped.
pub fn themed_file_diagram(wrapper_class: &str, light_src: &str, dark_src: &str, alt: &str) -> (r: String)
    ensures
        r@ == themed_file_html(wrapper_class@, light_src@, dark_src@, alt@),
{
    let light = escape_html(light_src);
    let dark = escape_html(dark_src);
    let alt = escape_html(alt);
    let mut r = String::from_str("<p class=\"");
    r.append(wrapper_class);
    r.append("\"><img class=\"diagram-light\" src=\"");
    r.append(light.as_str());
    r.append("\" alt=\"");
    r.append(alt.as_str());
    r.append("\"><img class=\"diagram-dark\" src=\"");
    r.append(dark.as_str());
    r.append("\" alt=\"");
    r.append(alt.as_str());
    r.append("\"></p>");
    r
}

} // verus!

verus! {

/// Escaped text holds no `<`, `>` or `"`.
pub proof fn law_escaped_has_no_markup(s: Seq<char>)
    ensures
        forall|k: int| 0 <= k < escaped(s).len() ==> {
            let c = #[trigger] escaped(s)[k];
            c != '<' && c != '>' && c != '"'
        },
    decreases s.len(),
{
    reveal_strlit("&amp;");
    reveal_strlit("&quot;");
    reveal_strlit("&lt;");
    reveal_strlit("&gt;");
    if s.len() > 0 {
        law_escaped_has_no_markup(s.drop_last());
        let p = escaped(s.drop_last());
        let q = escape_piece(s.last());
        assert(escaped(s) == p + q);
        assert forall|k: int| 0 <= k < escaped(s).len() implies {
            let c = #[trigger] escaped(s)[k];
            c != '<' && c != '>' && c != '"'
        } by {
            if k >= p.len() {
                assert(escaped(s)[k] == q[k - p.len()]);
            } else {
                assert(escaped(s)[k] == p[k]);
            }
        }
    }
}

} // verus!

verus! {

/// Whether `s` holds no line feed.
pub open spec fn no_line_feed(s: Seq<char>) -> bool {
    forall|k: int| 0 <= k < s.len() ==> #[trigger] s[k] != '\n'
}

proof fn lemma_line_feeds_removed(s: Seq<char>, i: int)
    requires
        0 <= i,
    ensures
        no_line_feed(rewrite_from(SvgRule::LineFeed, s, i)),
    decreases s.len() - i,
{
    if i < s.len() {
        lemma_line_feeds_removed(s, i + 1);
        let rest = rewrite_from(SvgRule::LineFeed, s, i + 1);
        let r = rewrite_from(SvgRule::LineFeed, s, i);
        if s[i] == '\n' {
            assert(r == Seq::<char>::empty() + rest);
        } else {
            assert(r == seq![s[i]] + rest);
            assert forall|k: int| 0 <= k < r.len() implies #[trigger] r[k] != '\n' by {
                if k > 0 {
                    assert(r[k] == rest[k - 1]);
                }
            }
        }
    }
}

proof fn lemma_trim_keeps_no_line_feed(s: Seq<char>)
    requires
        no_line_feed(s),
    ensures
        no_line_feed(trim_start(s)),
        no_line_feed(trim_end(s)),
    decreases s.len(),
{
    if s.len() > 0 {
        assert(no_line_feed(s.drop_first())) by {
            assert forall|k: int| 0 <= k < s.drop_first().len() implies #[trigger] s.drop_first()[k] != '\n' by {
                assert(s.drop_first()[k] == s[k + 1]);
            }
        }
        assert(no_line_feed(s.drop_last())) by {
            assert forall|k: int| 0 <= k < s.drop_last().len() implies #[trigger] s.drop_last()[k] != '\n' by {
                assert(s.drop_last()[k] == s[k]);
            }
        }
        lemma_trim_keeps_no_line_feed(s.drop_first());
        lemma_trim_keeps_no_line_feed(s.drop_last());
    }
}

/// Sanitized SVG output is a single line.
pub proof fn law_sanitized_is_one_line(s: Seq<char>)
    ensures
        no_line_feed(sanitized(s)),
{
    let t = rewrite(
        SvgRule::LineFeed,
        rewrite(SvgRule::GapBetweenTags, rewrite(SvgRule::XmlDeclaration, rewrite(SvgRule::Doctype, s))),
    );
    lemma_line_feeds_removed(rewrite(SvgRule::GapBetweenTags, rewrite(SvgRule::XmlDeclaration, rewrite(SvgRule::Doctype, s))), 0);
    lemma_trim_keeps_no_line_feed(t);
    lemma_trim_keeps_no_line_feed(trim_start(t));
}

} // verus!

verus! {

/// `s` with each `p` replaced by `r`, character by character.
pub open spec fn char_replaced(s: Seq<char>, p: char, r: Seq<char>) -> Seq<char>
    decreases s.len(),
{
    if s.len() == 0 {
        Seq::empty()
    } else {
        char_replaced(s.drop_last(), p, r) + (if s.last() == p {
            r
        } else {
            seq![s.last()]
        })
    }
}

proof fn lemma_char_replaced_concat(a: Seq<char>, b: Seq<char>, p: char, r: Seq<char>)
    ensures
        char_replaced(a + b, p, r) == char_replaced(a, p, r) + char_replaced(b, p, r),
    decreases b.len(),
{
    if b.len() == 0 {
        assert(a + b == a);
        assert(char_replaced(a, p, r) + Seq::<char>::empty() == char_replaced(a, p, r));
    } else {
        assert((a + b).drop_last() == a + b.drop_last());
        assert((a + b).last() == b.last());
        lemma_char_replaced_concat(a, b.drop_last(), p, r);
    }
}

proof fn lemma_char_replaced_single(c: char, p: char, r: Seq<char>)
    ensures
        char_replaced(seq![c], p, r) == if c == p {
            r
        } else {
            seq![c]
        },
{
    assert(seq![c].drop_last().len() == 0);
    assert(char_replaced(seq![c].drop_last(), p, r) == Seq::<char>::empty());
}

proof fn lemma_replace_all_single_char(s: Seq<char>, p: char, r: Seq<char>)
    ensures
        replace_all(s, seq![p], r) == char_replaced(s, p, r),
    decreases s.len(),
{
    if s.len() > 0 {
        let t = s.skip(1);
        lemma_replace_all_single_char(t, p, r);
        assert(s == seq![s[0]] + t);
        lemma_char_replaced_concat(seq![s[0]], t, p, r);
        lemma_char_replaced_single(s[0], p, r);
        if s[0] == p {
            assert(s.subrange(0, 1) =~= seq![p]);
            assert(occurs_at(s, 0, seq![p]));
        } else {
            assert(s.subrange(0, 1)[0] == s[0]);
            assert(!occurs_at(s, 0, seq![p]));
        }
    }
}

proof fn lemma_char_replaced_absent(s: Seq<char>, p: char, r: Seq<char>)
    requires
        forall|k: int| 0 <= k < s.len() ==> s[k] != p,
    ensures
        char_replaced(s, p, r) == s,
    decreases s.len(),
{
    if s.len() > 0 {
        lemma_char_replaced_absent(s.drop_last(), p, r);
        assert(s.drop_last().push(s.last()) == s);
    }
}

/// [`escaped`] is the chain of replacements `&` → `&amp;`, `"` → `&quot;`,
/// `<` → `&lt;`, `>` → `&gt;`, made in this order over the whole text.
pub proof fn law_escape_is_replacement_chain(s: Seq<char>)
    ensures
        escaped(s) == replace_all(
            replace_all(replace_all(replace_all(s, seq!['&'], "&amp;"@), seq!['"'], "&quot;"@), seq!['<'], "&lt;"@),
            seq!['>'],
            "&gt;"@,
        ),
{
    lemma_escaped_chain(s);
    let s1 = char_replaced(s, '&', "&amp;"@);
    let s2 = char_replaced(s1, '"', "&quot;"@);
    let s3 = char_replaced(s2, '<', "&lt;"@);
    lemma_replace_all_single_char(s, '&', "&amp;"@);
    lemma_replace_all_single_char(s1, '"', "&quot;"@);
    lemma_replace_all_single_char(s2, '<', "&lt;"@);
    lemma_replace_all_single_char(s3, '>', "&gt;"@);
}

proof fn lemma_escaped_chain(s: Seq<char>)
    ensures
        escaped(s) == char_replaced(
            char_replaced(char_replaced(char_replaced(s, '&', "&amp;"@), '"', "&quot;"@), '<', "&lt;"@),
            '>',
            "&gt;"@,
        ),
    decreases s.len(),
{
    reveal_strlit("&amp;");
    reveal_strlit("&quot;");
    reveal_strlit("&lt;");
    reveal_strlit("&gt;");
    let amp = "&amp;"@;
    let quot = "&quot;"@;
    let lt = "&lt;"@;
    let gt = "&gt;"@;
    if s.len() > 0 {
        let a = s.drop_last();
        let c = s.last();
        lemma_escaped_chain(a);
        let p1 = char_replaced(seq![c], '&', amp);
        lemma_char_replaced_single(c, '&', amp);
        assert(s == a + seq![c]);
        lemma_char_replaced_concat(a, seq![c], '&', amp);
        let a1 = char_replaced(a, '&', amp);
        lemma_char_replaced_concat(a1, p1, '"', quot);
        let a2 = char_replaced(a1, '"', quot);
        let p2 = char_replaced(p1, '"', quot);
        lemma_char_replaced_concat(a2, p2, '<', lt);
        let a3 = char_replaced(a2, '<', lt);
        let p3 = char_replaced(p2, '<', lt);
        lemma_char_replaced_concat(a3, p3, '>', gt);
        let p4 = char_replaced(p3, '>', gt);
        if c == '&' {
            lemma_char_replaced_absent(amp, '"', quot);
            lemma_char_replaced_absent(amp, '<', lt);
            lemma_char_replaced_absent(amp, '>', gt);
        } else {
            lemma_char_replaced_single(c, '"', quot);
            if c == '"' {
                lemma_char_replaced_absent(quot, '<', lt);
                lemma_char_replaced_absent(quot, '>', gt);
            } else {
                lemma_char_replaced_single(c, '<', lt);
                if c == '<' {
                    lemma_char_replaced_absent(lt, '>', gt);
                } else {
                    lemma_char_replaced_single(c, '>', gt);
                }
            }
        }
        assert(p4 == escape_piece(c));
        assert(escaped(s) == escaped(a) + escape_piece(c));
    }
}

} // verus!

verus! {

/// Escaped text read back: `&lt;`, `&gt;`, `&quot;` and then `&amp;` replaced
/// by the characters they stand for, in this order over the whole text.
pub open spec fn unescaped(s: Seq<char>) -> Seq<char> {
    replace_all(replace_all(replace_all(replace_all(s, "&lt;"@, seq!['<']), "&gt;"@, seq!['>']), "&quot;"@, seq!['"']), "&amp;"@, seq!['&'])
}

/// The pieces that `f` makes of the characters of `v`, joined in order.
pub open spec fn joined(v: Seq<char>, f: spec_fn(char) -> Seq<char>) -> Seq<char>
    decreases v.len(),
{
    if v.len() == 0 {
        Seq::empty()
    } else {
        f(v[0]) + joined(v.drop_first(), f)
    }
}

proof fn lemma_joined_push(v: Seq<char>, c: char, f: spec_fn(char) -> Seq<char>)
    ensures
        joined(v.push(c), f) == joined(v, f) + f(c),
    decreases v.len(),
{
    if v.len() == 0 {
        assert(v.push(c).drop_first() =~= Seq::<char>::empty());
        assert(v.push(c)[0] == c);
        assert(joined(Seq::<char>::empty(), f) == Seq::<char>::empty());
        assert(joined(v.push(c), f) =~= f(c));
    } else {
        assert(v.push(c).drop_first() =~= v.drop_first().push(c));
        lemma_joined_push(v.drop_first(), c, f);
        assert(joined(v.push(c), f) =~= f(v[0]) + (joined(v.drop_first(), f) + f(c)));
    }
}

proof fn lemma_escaped_joined(v: Seq<char>)
    ensures
        escaped(v) == joined(v, |c: char| escape_piece(c)),
    decreases v.len(),
{
    if v.len() > 0 {
        lemma_escaped_joined(v.drop_last());
        lemma_joined_push(v.drop_last(), v.last(), |c: char| escape_piece(c));
        assert(v.drop_last().push(v.last()) =~= v);
    }
}

proof fn lemma_joined_single(v: Seq<char>)
    ensures
        joined(v, |c: char| seq![c]) == v,
    decreases v.len(),
{
    if v.len() > 0 {
        lemma_joined_single(v.drop_first());
        assert(seq![v[0]] + v.drop_first() =~= v);
    }
}

/// A piece in which `pat` (which starts with `&`) can start nowhere, whatever
/// follows it: it holds `&` at most at its start, and differs from `pat` at
/// the next character where it does.
pub open spec fn clean_piece(x: Seq<char>, pat: Seq<char>) -> bool {
    &&& x.len() >= 1
    &&& forall|k: int| 1 <= k < x.len() ==> #[trigger] x[k] != '&'
    &&& (x[0] != '&' || (x.len() >= 2 && x[1] != pat[1]))
}

proof fn lemma_replace_piece(x: Seq<char>, rest: Seq<char>, pat: Seq<char>, rep: Seq<char>)
    requires
        pat.len() >= 2,
        pat[0] == '&',
        x == pat || clean_piece(x, pat),
    ensures
        replace_all(x + rest, pat, rep) == (if x == pat { rep } else { x }) + replace_all(rest, pat, rep),
{
    let s = x + rest;
    if x == pat {
        assert(s.subrange(0, pat.len() as int) =~= pat);
        assert(occurs_at(s, 0, pat));
        assert(s.skip(pat.len() as int) =~= rest);
    } else {
        assert forall|i: int| 0 <= i < x.len() implies !occurs_at(x + rest, i, pat) by {
            if occurs_at(x + rest, i, pat) {
                assert(s.subrange(i, i + pat.len())[0] == pat[0]);
                assert(s[i] == '&');
                assert(x[i] == '&');
                assert(i == 0);
                assert(s.subrange(i, i + pat.len())[1] == pat[1]);
                assert(s[1] == x[1]);
            }
        }
        lemma_replace_all_clean_prefix(x, rest, pat, rep);
    }
}

proof fn lemma_replace_joined(v: Seq<char>, f: spec_fn(char) -> Seq<char>, g: spec_fn(char) -> Seq<char>, pat: Seq<char>, rep: Seq<char>)
    requires
        pat.len() >= 2,
        pat[0] == '&',
        forall|k: int| 0 <= k < v.len() ==> {
            let c = #[trigger] v[k];
            (f(c) == pat && g(c) == rep) || (f(c) != pat && clean_piece(f(c), pat) && g(c) == f(c))
        },
    ensures
        replace_all(joined(v, f), pat, rep) == joined(v, g),
    decreases v.len(),
{
    if v.len() > 0 {
        let c = v[0];
        assert(v[0] == c);
        assert forall|k: int| 0 <= k < v.drop_first().len() implies {
            let d = #[trigger] v.drop_first()[k];
            (f(d) == pat && g(d) == rep) || (f(d) != pat && clean_piece(f(d), pat) && g(d) == f(d))
        } by {
            assert(v.drop_first()[k] == v[k + 1]);
        }
        lemma_replace_joined(v.drop_first(), f, g, pat, rep);
        lemma_replace_piece(f(c), joined(v.drop_first(), f), pat, rep);
    }
}

/// Escaped text reads back as the text that was escaped: replacing `&lt;`,
/// `&gt;`, `&quot;` and then `&amp;` by the characters they stand for undoes
/// [`escaped`].
pub proof fn law_unescape_undoes_escape(s: Seq<char>)
    ensures
        unescaped(escaped(s)) == s,
{
    reveal_strlit("&amp;");
    reveal_strlit("&quot;");
    reveal_strlit("&lt;");
    reveal_strlit("&gt;");
    let amp = "&amp;"@;
    let quot = "&quot;"@;
    let lt = "&lt;"@;
    let gt = "&gt;"@;
    let f0 = |c: char| escape_piece(c);
    let f1 = |c: char| if c == '<' { seq!['<'] } else { escape_piece(c) };
    let f2 = |c: char| if c == '<' || c == '>' { seq![c] } else { escape_piece(c) };
    let f3 = |c: char| if c == '&' { amp } else { seq![c] };
    let f4 = |c: char| seq![c];
    lemma_escaped_joined(s);
    assert forall|k: int| 0 <= k < s.len() implies {
        let c = #[trigger] s[k];
        (f0(c) == lt && f1(c) == seq!['<']) || (f0(c) != lt && clean_piece(f0(c), lt) && f1(c) == f0(c))
    } by {
        let c = s[k];
        if c != '<' {
            if c == '&' {
                assert(f0(c).len() != lt.len());
            } else if c == '"' {
                assert(f0(c).len() != lt.len());
            } else if c == '>' {
                assert(f0(c)[1] != lt[1]);
            } else {
                assert(f0(c).len() == 1);
            }
        }
    }
    lemma_replace_joined(s, f0, f1, lt, seq!['<']);
    assert forall|k: int| 0 <= k < s.len() implies {
        let c = #[trigger] s[k];
        (f1(c) == gt && f2(c) == seq!['>']) || (f1(c) != gt && clean_piece(f1(c), gt) && f2(c) == f1(c))
    } by {
        let c = s[k];
        if c != '>' {
            assert(f1(c) != gt) by {
                if f1(c) == gt { assert(f1(c)[1] == gt[1]); }
            }
        }
    }
    lemma_replace_joined(s, f1, f2, gt, seq!['>']);
    assert forall|k: int| 0 <= k < s.len() implies {
        let c = #[trigger] s[k];
        (f2(c) == quot && f3(c) == seq!['"']) || (f2(c) != quot && clean_piece(f2(c), quot) && f3(c) == f2(c))
    } by {
        let c = s[k];
        if c != '"' {
            if c == '&' {
                assert(f2(c) == amp);
                assert(amp.len() != quot.len());
            } else {
                assert(f2(c).len() == 1);
            }
        }
    }
    lemma_replace_joined(s, f2, f3, quot, seq!['"']);
    assert forall|k: int| 0 <= k < s.len() implies {
        let c = #[trigger] s[k];
        (f3(c) == amp && f4(c) == seq!['&']) || (f3(c) != amp && clean_piece(f3(c), amp) && f4(c) == f3(c))
    } by {
        let c = s[k];
        if c != '&' {
            assert(f3(c) != amp) by {
                if f3(c) == amp { assert(f3(c).len() == amp.len()); }
            }
        }
    }
    lemma_replace_joined(s, f3, f4, amp, seq!['&']);
    lemma_joined_single(s);
}

} // verus!

verus! {

proof fn lemma_find_from_shift(p: Seq<char>, t: Seq<char>, c: char, j: int)
    requires
        0 <= j,
    ensures
        find_from(p + t, c, p.len() + j) == (match find_from(t, c, j) {
            Some(q) => Some(q + p.len()),
            None => None::<int>,
        }),
    decreases t.len() - j,
{
    if j < t.len() {
        assert((p + t)[p.len() + j] == t[j]);
        lemma_find_from_shift(p, t, c, j + 1);
    }
}

proof fn lemma_find_from_skips(s: Seq<char>, c: char, j: int, k: int)
    requires
        0 <= j <= k < s.len(),
        forall|i: int| j <= i < k ==> #[trigger] s[i] != c,
    ensures
        find_from(s, c, j) == find_from(s, c, k),
    decreases k - j,
{
    if j < k {
        lemma_find_from_skips(s, c, j + 1, k);
    }
}

proof fn lemma_doctype_match_shift(p: Seq<char>, t: Seq<char>, i: int)
    requires
        0 <= i < t.len(),
    ensures
        rule_match_len(SvgRule::Doctype, p + t, p.len() + i) == rule_match_len(SvgRule::Doctype, t, i),
{
    let s = p + t;
    let d = "<!DOCTYPE "@;
    if i + d.len() <= t.len() {
        assert(s.subrange(p.len() + i, p.len() + i + d.len()) =~= t.subrange(i, i + d.len()));
    }
    lemma_find_from_shift(p, t, '>', i + 10);
}

proof fn lemma_doctype_rewrite_shift(p: Seq<char>, t: Seq<char>, i: int)
    requires
        0 <= i,
    ensures
        rewrite_from(SvgRule::Doctype, p + t, p.len() + i) == rewrite_from(SvgRule::Doctype, t, i),
    decreases t.len() - i,
{
    if i < t.len() {
        lemma_doctype_match_shift(p, t, i);
        assert((p + t)[p.len() + i] == t[i]);
        let m = rule_match_len(SvgRule::Doctype, t, i);
        if m > 0 && i + m <= t.len() {
            lemma_doctype_rewrite_shift(p, t, i + m);
        } else {
            lemma_doctype_rewrite_shift(p, t, i + 1);
        }
    }
}

/// Every `<!DOCTYPE ...>` declaration is removed, whatever it holds up to its
/// closing `>`, line feeds included: a text that starts with one is rewritten
/// as the rest of the text is.
pub proof fn law_doctype_is_removed(x: Seq<char>, t: Seq<char>)
    requires
        x.len() > 0,
        forall|k: int| 0 <= k < x.len() ==> #[trigger] x[k] != '>',
    ensures
        rewrite(SvgRule::Doctype, "<!DOCTYPE "@ + x + seq!['>'] + t) == rewrite(SvgRule::Doctype, t),
{
    reveal_strlit("<!DOCTYPE ");
    let d = "<!DOCTYPE "@;
    let p = d + x + seq!['>'];
    let s = p + t;
    assert(d.len() == 10);
    assert(s.subrange(0, 10) =~= d);
    assert(occurs_at(s, 0, d));
    let q: int = 10int + x.len() as int;
    assert(s[q] == '>');
    assert forall|i: int| 10 <= i < q implies #[trigger] s[i] != '>' by {
        assert(s[i] == x[i - 10]);
    }
    lemma_find_from_skips(s, '>', 10, q);
    assert(find_from(s, '>', q) == Some(q));
    assert(rule_match_len(SvgRule::Doctype, s, 0) == q + 1);
    assert(p.len() == q + 1);
    lemma_doctype_rewrite_shift(p, t, 0);
    assert(rewrite_from(SvgRule::Doctype, s, 0) == Seq::<char>::empty() + rewrite_from(SvgRule::Doctype, s, q + 1));
    assert(Seq::<char>::empty() + rewrite_from(SvgRule::Doctype, t, 0) =~= rewrite_from(SvgRule::Doctype, t, 0));
}

} // verus!
