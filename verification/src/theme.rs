//! Theme files: colour tokens, `{{ token }}` placeholders in Graphviz source,
//! and the preamble injected into sources that use no placeholder.

use vstd::prelude::*;
use crate::text::{chars_of, find_from, string_of_range, occurs_at, push_char, string_of, white_space_run_end, white_space_run_end_at};

verus! {

/// The map from token names to values that a list of assignments builds, a
/// later assignment of a name replacing an earlier one.
pub open spec fn tokens_map(s: Seq<(String, String)>) -> Map<Seq<char>, Seq<char>>
    decreases s.len(),
{
    if s.len() == 0 {
        Map::empty()
    } else {
        tokens_map(s.drop_last()).insert(s.last().0@, s.last().1@)
    }
}

/// The colour tokens of one variant (light or dark) of a theme.
#[derive(Debug, Clone)]
pub struct ThemeTokens {
    entries: Vec<(String, String)>,
}

impl View for ThemeTokens {
    type V = Map<Seq<char>, Seq<char>>;

    closed spec fn view(&self) -> Map<Seq<char>, Seq<char>> {
        tokens_map(self.entries@)
    }
}

/// Whether two texts are equal.
pub fn same_text(a: &str, b: &str) -> (r: bool)
    ensures
        r == (a@ == b@),
{
    let x = String::from_str(a);
    let y = String::from_str(b);
    x == y
}

impl ThemeTokens {
    /// A theme variant without tokens.
    pub fn new() -> (t: Self)
        ensures
            t@ == Map::<Seq<char>, Seq<char>>::empty(),
    {
        ThemeTokens { entries: Vec::new() }
    }

    /// The value of the token `key`.
    pub fn get(&self, key: &str) -> (r: Option<&String>)
        ensures
            match r {
                Some(v) => self@.contains_key(key@) && v@ == self@[key@],
                None => !self@.contains_key(key@),
            },
    {
        let ghost s = self.entries@;
        let mut i = self.entries.len();
        assert(s.take(i as int) == s);
        while i > 0
            invariant
                i <= s.len(),
                s == self.entries@,
                tokens_map(s).contains_key(key@) == tokens_map(s.take(i as int)).contains_key(key@),
                tokens_map(s.take(i as int)).contains_key(key@) ==> tokens_map(s)[key@] == tokens_map(s.take(i as int))[key@],
            decreases i,
        {
            i -= 1;
            assert(s.take(i + 1).drop_last() == s.take(i as int));
            if same_text(self.entries[i].0.as_str(), key) {
                return Some(&self.entries[i].1);
            }
        }
        None
    }

    /// Sets the token `key` to `value`, and gives back its former value.
    pub fn insert(&mut self, key: String, value: String) -> (r: Option<String>)
        ensures
            final(self)@ == old(self)@.insert(key@, value@),
            match r {
                Some(v) => old(self)@.contains_key(key@) && v@ == old(self)@[key@],
                None => !old(self)@.contains_key(key@),
            },
    {
        let previous = match self.get(key.as_str()) {
            Some(v) => Some(v.clone()),
            None => None,
        };
        let ghost s = self.entries@;
        self.entries.push((key, value));
        assert(self.entries@.drop_last() == s);
        previous
    }
}

/// The lexicographic order of texts by character codes (the order of `String`).
pub open spec fn key_less(a: Seq<char>, b: Seq<char>) -> bool
    decreases a.len(),
{
    if a.len() == 0 {
        b.len() > 0
    } else if b.len() == 0 {
        false
    } else if a[0] != b[0] {
        a[0] < b[0]
    } else {
        key_less(a.drop_first(), b.drop_first())
    }
}

/// Whether `a` comes before `b` in the order of [`key_less`].
pub fn key_less_text(a: &str, b: &str) -> (r: bool)
    ensures
        r == key_less(a@, b@),
{
    let x = chars_of(a);
    let y = chars_of(b);
    let mut j: usize = 0;
    assert(x@.skip(0) == x@);
    assert(y@.skip(0) == y@);
    while j < x.len() && j < y.len() && x[j] == y[j]
        invariant
            j <= x.len(),
            j <= y.len(),
            key_less(x@, y@) == key_less(x@.skip(j as int), y@.skip(j as int)),
        decreases x.len() - j,
    {
        assert(x@.skip(j as int).drop_first() == x@.skip(j + 1));
        assert(y@.skip(j as int).drop_first() == y@.skip(j + 1));
        j += 1;
    }
    if j == x.len() {
        j < y.len()
    } else if j == y.len() {
        false
    } else {
        x[j] < y[j]
    }
}

/// `k` put into the ordered list `v`, unless `v` holds it already.
pub open spec fn sorted_insert(v: Seq<Seq<char>>, k: Seq<char>) -> Seq<Seq<char>>
    decreases v.len(),
{
    if v.len() == 0 {
        seq![k]
    } else if v[0] == k {
        v
    } else if key_less(k, v[0]) {
        seq![k] + v
    } else {
        seq![v[0]] + sorted_insert(v.drop_first(), k)
    }
}

/// The texts of `s`, in order and without repeats.
pub open spec fn sort_keys(s: Seq<Seq<char>>) -> Seq<Seq<char>>
    decreases s.len(),
{
    if s.len() == 0 {
        Seq::empty()
    } else {
        sorted_insert(sort_keys(s.drop_last()), s.last())
    }
}

/// The texts of a list of strings.
pub open spec fn texts(v: Seq<String>) -> Seq<Seq<char>> {
    v.map_values(|s: String| s@)
}

fn insert_sorted(v: &Vec<String>, k: &String) -> (r: Vec<String>)
    ensures
        texts(r@) == sorted_insert(texts(v@), k@),
{
    let mut out: Vec<String> = Vec::new();
    let mut j: usize = 0;
    assert(texts(v@).skip(0) == texts(v@));
    while j < v.len()
        invariant
            j <= v.len(),
            texts(out@) + sorted_insert(texts(v@).skip(j as int), k@) == sorted_insert(texts(v@), k@),
        decreases v.len() - j,
    {
        let ghost rest = texts(v@).skip(j as int);
        assert(rest[0] == v@[j as int]@);
        assert(rest.drop_first() == texts(v@).skip(j + 1));
        if v[j] == *k {
            let ghost before = texts(out@);
            while j < v.len()
                invariant
                    j <= v.len(),
                    texts(out@) + texts(v@).skip(j as int) == before + rest,
                decreases v.len() - j,
            {
                let ghost r2 = texts(v@).skip(j as int);
                assert(r2 == seq![r2[0]] + texts(v@).skip(j + 1));
                out.push(v[j].clone());
                assert(texts(out@) == texts(out@).drop_last().push(v@[j as int]@));
                j += 1;
            }
            assert(texts(v@).skip(v.len() as int).len() == 0);
            assert(texts(out@) == texts(out@) + texts(v@).skip(j as int));
            return out;
        }
        if key_less_text(k.as_str(), v[j].as_str()) {
            let ghost before = texts(out@);
            out.push(k.clone());
            assert(texts(out@) == before.push(k@));
            while j < v.len()
                invariant
                    j <= v.len(),
                    texts(out@) + texts(v@).skip(j as int) == before + seq![k@] + rest,
                decreases v.len() - j,
            {
                let ghost r2 = texts(v@).skip(j as int);
                assert(r2 == seq![r2[0]] + texts(v@).skip(j + 1));
                out.push(v[j].clone());
                assert(texts(out@) == texts(out@).drop_last().push(v@[j as int]@));
                j += 1;
            }
            assert(texts(v@).skip(v.len() as int).len() == 0);
            assert(texts(out@) == texts(out@) + texts(v@).skip(j as int));
            return out;
        }
        let ghost before = texts(out@);
        out.push(v[j].clone());
        assert(texts(out@) == before.push(v@[j as int]@));
        j += 1;
    }
    let ghost before = texts(out@);
    out.push(k.clone());
    assert(texts(out@) == before.push(k@));
    out
}

} // verus!

verus! {

/// A character of a token name: an ASCII letter or digit, or `_`.
pub open spec fn is_key_char(c: char) -> bool {
    ('a' <= c && c <= 'z') || ('A' <= c && c <= 'Z') || ('0' <= c && c <= '9') || c == '_'
}

/// The end of the run of token-name characters in `s` that starts at `i`.
pub open spec fn key_run_end(s: Seq<char>, i: int) -> int
    decreases s.len() - i,
{
    if i < 0 || i >= s.len() || !is_key_char(s[i]) {
        i
    } else {
        key_run_end(s, i + 1)
    }
}

/// Where the token name of a placeholder at `i` starts.
pub open spec fn placeholder_key_start(s: Seq<char>, i: int) -> int {
    white_space_run_end(s, i + 2)
}

/// Where the token name of a placeholder at `i` ends.
pub open spec fn placeholder_key_end(s: Seq<char>, i: int) -> int {
    key_run_end(s, placeholder_key_start(s, i))
}

/// The length of the placeholder `{{ name }}` (pattern
/// `\{\{\s*([a-zA-Z0-9_]+)\s*\}\}`) in `s` at `i`, or 0 where none starts there.
pub open spec fn placeholder_len(s: Seq<char>, i: int) -> int {
    if occurs_at(s, i, seq!['{', '{']) {
        let a = placeholder_key_start(s, i);
        let b = placeholder_key_end(s, i);
        let c = white_space_run_end(s, b);
        if b > a && occurs_at(s, c, seq!['}', '}']) {
            c + 2 - i
        } else {
            0
        }
    } else {
        0
    }
}

/// The token name of the placeholder at `i`.
pub open spec fn placeholder_key(s: Seq<char>, i: int) -> Seq<char> {
    s.subrange(placeholder_key_start(s, i), placeholder_key_end(s, i))
}

/// `s` from `i` on with each placeholder, taken from the left, replaced by the
/// value of its token; a placeholder of an unknown token is kept as written.
pub open spec fn substituted_from(s: Seq<char>, i: int, theme: Map<Seq<char>, Seq<char>>) -> Seq<char>
    decreases s.len() - i,
{
    if i < 0 || i >= s.len() {
        Seq::empty()
    } else {
        let m = placeholder_len(s, i);
        if m > 0 && i + m <= s.len() {
            let key = placeholder_key(s, i);
            (if theme.contains_key(key) {
                theme[key]
            } else {
                s.subrange(i, i + m)
            }) + substituted_from(s, i + m, theme)
        } else {
            seq![s[i]] + substituted_from(s, i + 1, theme)
        }
    }
}

/// The unknown token names of the placeholders of `s` from `i` on, in order.
pub open spec fn missing_from(s: Seq<char>, i: int, theme: Map<Seq<char>, Seq<char>>) -> Seq<Seq<char>>
    decreases s.len() - i,
{
    if i < 0 || i >= s.len() {
        Seq::empty()
    } else {
        let m = placeholder_len(s, i);
        if m > 0 && i + m <= s.len() {
            let key = placeholder_key(s, i);
            (if theme.contains_key(key) {
                Seq::empty()
            } else {
                seq![key]
            }) + missing_from(s, i + m, theme)
        } else {
            missing_from(s, i + 1, theme)
        }
    }
}

/// `s` with each placeholder replaced by the value of its token.
pub open spec fn substituted(s: Seq<char>, theme: Map<Seq<char>, Seq<char>>) -> Seq<char> {
    substituted_from(s, 0, theme)
}

/// The unknown token names of the placeholders of `s`, in order of appearance.
pub open spec fn missing_keys(s: Seq<char>, theme: Map<Seq<char>, Seq<char>>) -> Seq<Seq<char>> {
    missing_from(s, 0, theme)
}

/// The outcome of filling in `s` from `theme`: the text with every placeholder
/// replaced, or, where some token is unknown, the unknown names in order and
/// without repeats.
pub open spec fn themed(s: Seq<char>, theme: Map<Seq<char>, Seq<char>>) -> Result<Seq<char>, Seq<Seq<char>>> {
    if missing_keys(s, theme).len() == 0 {
        Ok(substituted(s, theme))
    } else {
        Err(sort_keys(missing_keys(s, theme)))
    }
}

/// Why a theme could not be applied.
#[derive(Debug, Clone)]
pub enum ThemeError {
    /// Placeholders name these tokens, which the theme lacks (ordered, without repeats).
    MissingKeys(Vec<String>),
}

impl ThemeError {
    /// The names of the missing tokens.
    pub open spec fn keys(&self) -> Seq<Seq<char>> {
        match self {
            ThemeError::MissingKeys(keys) => texts(keys@),
        }
    }

    /// The message that reports the error: `missing theme keys: ` and the names
    /// separated by `, `.
    pub fn message(&self) -> (r: String)
        ensures
            r@ == "missing theme keys: "@ + join_with(self.keys(), ", "@),
    {
        match self {
            ThemeError::MissingKeys(keys) => {
                let mut r = String::from_str("missing theme keys: ");
                let tail = join_strings(keys, ", ");
                r.append(tail.as_str());
                r
            },
        }
    }
}

/// The outcome of a theme operation, seen as texts.
pub open spec fn theme_outcome(r: Result<String, ThemeError>) -> Result<Seq<char>, Seq<Seq<char>>> {
    match r {
        Ok(s) => Ok(s@),
        Err(e) => Err(e.keys()),
    }
}

/// `parts` with `sep` between each two.
pub open spec fn join_with(parts: Seq<Seq<char>>, sep: Seq<char>) -> Seq<char>
    decreases parts.len(),
{
    if parts.len() == 0 {
        Seq::empty()
    } else if parts.len() == 1 {
        parts[0]
    } else {
        join_with(parts.drop_last(), sep) + sep + parts.last()
    }
}

/// `parts` with `sep` between each two (`[String]::join`).
pub fn join_strings(parts: &Vec<String>, sep: &str) -> (r: String)
    ensures
        r@ == join_with(texts(parts@), sep@),
{
    let mut r = String::new();
    let mut k: usize = 0;
    while k < parts.len()
        invariant
            k <= parts.len(),
            r@ == join_with(texts(parts@).take(k as int), sep@),
        decreases parts.len() - k,
    {
        let ghost t = texts(parts@).take(k + 1);
        assert(t.drop_last() == texts(parts@).take(k as int));
        assert(t.last() == parts@[k as int]@);
        if k > 0 {
            r.append(sep);
        }
        r.append(parts[k].as_str());
        k += 1;
    }
    assert(texts(parts@).take(parts.len() as int) == texts(parts@));
    r
}

fn key_run_end_at(s: &Vec<char>, i: usize) -> (r: usize)
    ensures
        r as int == key_run_end(s@, i as int),
{
    let mut j: usize = i;
    while j < s.len() && (('a' <= s[j] && s[j] <= 'z') || ('A' <= s[j] && s[j] <= 'Z') || ('0' <= s[j] && s[j] <= '9') || s[j] == '_')
        invariant
            i <= j,
            key_run_end(s@, i as int) == key_run_end(s@, j as int),
        decreases s.len() - j,
    {
        j += 1;
    }
    j
}

proof fn lemma_run_ends(s: Seq<char>, i: int)
    requires
        0 <= i,
    ensures
        i <= white_space_run_end(s, i),
        white_space_run_end(s, i) <= s.len() || white_space_run_end(s, i) == i,
        i <= key_run_end(s, i),
        key_run_end(s, i) <= s.len() || key_run_end(s, i) == i,
    decreases s.len() - i,
{
    if i < s.len() {
        lemma_run_ends(s, i + 1);
    }
}

/// The placeholder at `i`: its length (0 where there is none) and where its
/// token name starts and ends.
fn placeholder_at(s: &Vec<char>, i: usize) -> (r: (usize, usize, usize))
    requires
        i < s.len(),
    ensures
        r.0 as int == placeholder_len(s@, i as int),
        r.0 > 0 ==> r.1 as int == placeholder_key_start(s@, i as int) && r.2 as int == placeholder_key_end(s@, i as int)
            && r.1 <= r.2 <= s.len(),
{
    if i + 1 < s.len() && s[i] == '{' && s[i + 1] == '{' {
        assert(s@.subrange(i as int, i + 2) =~= seq!['{', '{']);
        proof {
            lemma_run_ends(s@, i + 2);
        }
        let a = white_space_run_end_at(s, i + 2);
        proof {
            lemma_run_ends(s@, a as int);
        }
        let b = key_run_end_at(s, a);
        proof {
            lemma_run_ends(s@, b as int);
        }
        let c = white_space_run_end_at(s, b);
        if b > a && c < s.len() && s.len() - c >= 2 && s[c] == '}' && s[c + 1] == '}' {
            assert(s@.subrange(c as int, c + 2) =~= seq!['}', '}']);
            (c + 2 - i, a, b)
        } else {
            proof {
                if b > a && occurs_at(s@, c as int, seq!['}', '}']) {
                    assert(s@.subrange(c as int, c + 2)[0] == '}');
                    assert(s@.subrange(c as int, c + 2)[1] == '}');
                }
            }
            (0, 0, 0)
        }
    } else {
        proof {
            if occurs_at(s@, i as int, seq!['{', '{']) {
                assert(s@.subrange(i as int, i + 2)[0] == '{');
                assert(s@.subrange(i as int, i + 2)[1] == '{');
            }
        }
        (0, 0, 0)
    }
}

proof fn lemma_sorted_insert_nonempty(v: Seq<Seq<char>>, k: Seq<char>)
    ensures
        sorted_insert(v, k).len() > 0,
    decreases v.len(),
{
    if v.len() > 0 && v[0] != k && !key_less(k, v[0]) {
        lemma_sorted_insert_nonempty(v.drop_first(), k);
    }
}

/// Fills in the placeholders of `template` from `theme`: each `{{ name }}` is
/// replaced by the value of the token `name`; where some token is unknown, the
/// error lists every unknown name, ordered and without repeats.
pub fn apply_theme(template: &str, theme: &ThemeTokens) -> (r: Result<String, ThemeError>)
    ensures
        theme_outcome(r) == themed(template@, theme@),
{
    let s = chars_of(template);
    let mut out = String::new();
    let mut missing: Vec<String> = Vec::new();
    let ghost mut found: Seq<Seq<char>> = Seq::empty();
    let mut i: usize = 0;
    while i < s.len()
        invariant
            i <= s.len(),
            s@ == template@,
            out@ + substituted_from(s@, i as int, theme@) == substituted(s@, theme@),
            found + missing_from(s@, i as int, theme@) == missing_keys(s@, theme@),
            texts(missing@) == sort_keys(found),
        decreases s.len() - i,
    {
        let (m, a, b) = placeholder_at(&s, i);
        if m > 0 && m <= s.len() - i {
            let key = string_of_range(&s, a, b);
            assert(key@ == placeholder_key(s@, i as int));
            match theme.get(key.as_str()) {
                Some(v) => {
                    out.append(v.as_str());
                },
                None => {
                    let written = string_of_range(&s, i, i + m);
                    out.append(written.as_str());
                    missing = insert_sorted(&missing, &key);
                    proof {
                        assert(found.push(key@).drop_last() == found);
                        found = found.push(key@);
                    }
                },
            }
            i += m;
        } else {
            push_char(&mut out, s[i]);
            i += 1;
        }
    }
    assert(found == missing_keys(s@, theme@));
    if missing.len() == 0 {
        proof {
            if found.len() > 0 {
                lemma_sorted_insert_nonempty(sort_keys(found.drop_last()), found.last());
            }
        }
        Ok(out)
    } else {
        Err(ThemeError::MissingKeys(missing))
    }
}

} // verus!

verus! {

/// Graph, node and edge attribute lines put at the top of a Graphviz source
/// that uses no placeholder.
#[derive(Debug, Clone)]
pub struct PreambleConfig {
    /// Graph attributes.
    pub graph: Option<String>,
    /// Node attributes.
    pub node: Option<String>,
    /// Edge attributes.
    pub edge: Option<String>,
}

/// A theme file: the tokens of the light and the dark variant, and an
/// optional preamble.
#[derive(Debug, Clone)]
pub struct ThemeFile {
    /// Tokens of the light variant.
    pub light: ThemeTokens,
    /// Tokens of the dark variant.
    pub dark: ThemeTokens,
    /// Attribute lines for sources without placeholders.
    pub preamble: Option<PreambleConfig>,
}

/// The text of an optional line, as a list of zero or one texts.
pub open spec fn optional_line(o: Option<String>) -> Seq<Seq<char>> {
    match o {
        Some(s) => seq![s@],
        None => Seq::empty(),
    }
}

/// The preamble's lines that are present: graph, node, edge.
pub open spec fn preamble_lines(p: PreambleConfig) -> Seq<Seq<char>> {
    optional_line(p.graph) + optional_line(p.node) + optional_line(p.edge)
}

/// Each of `lines` filled in from `theme`, or the error of the first line that
/// names an unknown token.
pub open spec fn themed_lines(lines: Seq<Seq<char>>, theme: Map<Seq<char>, Seq<char>>) -> Result<Seq<Seq<char>>, Seq<Seq<char>>>
    decreases lines.len(),
{
    if lines.len() == 0 {
        Ok(Seq::empty())
    } else {
        match themed(lines[0], theme) {
            Err(e) => Err(e),
            Ok(first) => match themed_lines(lines.drop_first(), theme) {
                Err(e) => Err(e),
                Ok(rest) => Ok(seq![first] + rest),
            },
        }
    }
}

/// `code` with the lines of `parts` inserted after its first `{` (before the
/// whole code where it has none), each line ended by a line feed.
pub open spec fn with_preamble(code: Seq<char>, parts: Seq<Seq<char>>) -> Seq<char> {
    if parts.len() == 0 {
        code
    } else {
        let insert = join_with(parts, seq!['\n']) + seq!['\n'];
        match find_from(code, '{', 0) {
            Some(p) => code.take(p + 1) + seq!['\n'] + insert + code.skip(p + 1),
            None => insert + code,
        }
    }
}

/// The outcome of putting the preamble `p`, filled in from `theme`, into `code`.
pub open spec fn injected(code: Seq<char>, p: PreambleConfig, theme: Map<Seq<char>, Seq<char>>) -> Result<Seq<char>, Seq<Seq<char>>> {
    match themed_lines(preamble_lines(p), theme) {
        Err(e) => Err(e),
        Ok(parts) => Ok(with_preamble(code, parts)),
    }
}

fn theme_line(line: &Option<String>, theme: &ThemeTokens, parts: &mut Vec<String>) -> (r: Result<(), ThemeError>)
    ensures
        match themed_lines(optional_line(*line), theme@) {
            Ok(ls) => r is Ok && texts(final(parts)@) == texts(old(parts)@) + ls,
            Err(e) => r matches Err(err) && err.keys() == e,
        },
{
    match line {
        Some(l) => {
            let ghost one = optional_line(*line);
            assert(one == seq![l@]);
            assert(one.drop_first().len() == 0);
            assert(themed_lines(one.drop_first(), theme@) == Ok::<Seq<Seq<char>>, Seq<Seq<char>>>(Seq::empty()));
            match apply_theme(l.as_str(), theme) {
                Ok(t) => {
                    let ghost before = texts(parts@);
                    parts.push(t);
                    assert(texts(parts@) == before.push(t@));
                    assert(seq![t@] + Seq::<Seq<char>>::empty() == seq![t@]);
                    assert(before.push(t@) == before + seq![t@]);
                    Ok(())
                },
                Err(e) => Err(e),
            }
        },
        None => Ok(()),
    }
}

proof fn lemma_themed_lines_append(a: Seq<Seq<char>>, b: Seq<Seq<char>>, theme: Map<Seq<char>, Seq<char>>)
    ensures
        themed_lines(a + b, theme) == match themed_lines(a, theme) {
            Err(e) => Err(e),
            Ok(x) => match themed_lines(b, theme) {
                Err(e) => Err(e),
                Ok(y) => Ok(x + y),
            },
        },
    decreases a.len(),
{
    if a.len() == 0 {
        assert(a + b == b);
        match themed_lines(b, theme) {
            Err(e) => {},
            Ok(y) => { assert(Seq::<Seq<char>>::empty() + y == y); },
        }
    } else {
        assert((a + b).drop_first() == a.drop_first() + b);
        lemma_themed_lines_append(a.drop_first(), b, theme);
        match themed(a[0], theme) {
            Err(e) => {},
            Ok(first) => {
                match themed_lines(a.drop_first(), theme) {
                    Err(e) => {},
                    Ok(x) => {
                        match themed_lines(b, theme) {
                            Err(e) => {},
                            Ok(y) => { assert(seq![first] + (x + y) == (seq![first] + x) + y); },
                        }
                    },
                }
            },
        }
    }
}

fn find_char(s: &Vec<char>, c: char) -> (r: Option<usize>)
    ensures
        match r {
            Some(q) => find_from(s@, c, 0) == Some(q as int) && q < s.len(),
            None => find_from(s@, c, 0) is None,
        },
{
    let mut j: usize = 0;
    while j < s.len() && s[j] != c
        invariant
            find_from(s@, c, 0) == find_from(s@, c, j as int),
        decreases s.len() - j,
    {
        j += 1;
    }
    if j < s.len() {
        Some(j)
    } else {
        None
    }
}

/// Puts the preamble's lines, filled in from `theme`, after the first `{` of
/// `code`; with no preamble line, `code` is returned as it is.
pub fn inject_preamble(code: &str, preamble: &PreambleConfig, theme: &ThemeTokens) -> (r: Result<String, ThemeError>)
    ensures
        theme_outcome(r) == injected(code@, *preamble, theme@),
{
    let mut parts: Vec<String> = Vec::new();
    proof {
        let g = optional_line(preamble.graph);
        let n = optional_line(preamble.node);
        let e = optional_line(preamble.edge);
        lemma_themed_lines_append(g + n, e, theme@);
        lemma_themed_lines_append(g, n, theme@);
        assert(texts(parts@) == Seq::<Seq<char>>::empty());
    }
    let r1 = theme_line(&preamble.graph, theme, &mut parts);
    if let Err(e) = r1 {
        return Err(e);
    }
    let r2 = theme_line(&preamble.node, theme, &mut parts);
    if let Err(e) = r2 {
        return Err(e);
    }
    let r3 = theme_line(&preamble.edge, theme, &mut parts);
    if let Err(e) = r3 {
        return Err(e);
    }
    assert(themed_lines(preamble_lines(*preamble), theme@) == Ok::<Seq<Seq<char>>, Seq<Seq<char>>>(texts(parts@)));
    if parts.len() == 0 {
        return Ok(String::from_str(code));
    }
    let mut insert = join_strings(&parts, "\n");
    push_char(&mut insert, '\n');
    proof {
        reveal_strlit("\n");
        assert("\n"@ == seq!['\n']);
    }
    let ghost parts_text = texts(parts@);
    assert(insert@ == join_with(parts_text, seq!['\n']) + seq!['\n']);
    let s = chars_of(code);
    match find_char(&s, '{') {
        Some(p) => {
            let head = string_of_range(&s, 0, p + 1);
            let tail = string_of_range(&s, p + 1, s.len());
            assert(s@.subrange(0, p + 1) == code@.take(p + 1));
            assert(s@.subrange(p + 1, s.len() as int) == code@.skip(p + 1));
            let mut out = head;
            push_char(&mut out, '\n');
            out.append(insert.as_str());
            out.append(tail.as_str());
            assert(out@ == with_preamble(code@, parts_text));
            Ok(out)
        },
        None => {
            let mut out = insert;
            out.append(code);
            assert(out@ == with_preamble(code@, parts_text));
            Ok(out)
        },
    }
}

/// Whether `code` holds `{{` anywhere.
pub open spec fn has_placeholder_opening(code: Seq<char>) -> bool {
    exists|i: int| occurs_at(code, i, seq!['{', '{'])
}

/// The outcome of preparing `code` for rendering with `theme`: the preamble is
/// put in where the code holds no `{{` and a preamble is given, then every
/// placeholder is filled in.
pub open spec fn prepared(code: Seq<char>, theme: Map<Seq<char>, Seq<char>>, preamble: Option<PreambleConfig>) -> Result<Seq<char>, Seq<Seq<char>>> {
    let base = if has_placeholder_opening(code) {
        Ok(code)
    } else {
        match preamble {
            Some(p) => injected(code, p, theme),
            None => Ok(code),
        }
    };
    match base {
        Err(e) => Err(e),
        Ok(c) => themed(c, theme),
    }
}

fn contains_placeholder_opening(s: &Vec<char>) -> (r: bool)
    ensures
        r == has_placeholder_opening(s@),
{
    let mut j: usize = 0;
    while j < s.len() && s.len() - j >= 2
        invariant
            j <= s.len(),
            forall|k: int| 0 <= k < j ==> !occurs_at(s@, k, seq!['{', '{']),
        decreases s.len() - j,
    {
        if s[j] == '{' && s[j + 1] == '{' {
            assert(s@.subrange(j as int, j + 2) =~= seq!['{', '{']);
            assert(occurs_at(s@, j as int, seq!['{', '{']));
            return true;
        }
        proof {
            if occurs_at(s@, j as int, seq!['{', '{']) {
                assert(s@.subrange(j as int, j + 2)[0] == s@[j as int]);
                assert(s@.subrange(j as int, j + 2)[1] == s@[j + 1]);
            }
        }
        j += 1;
    }
    false
}

/// Prepares a Graphviz source for one theme variant (see [`prepared`]).
pub fn prepare_dot(code: &str, theme: &ThemeTokens, preamble: Option<&PreambleConfig>) -> (r: Result<String, ThemeError>)
    ensures
        theme_outcome(r) == prepared(
            code@,
            theme@,
            match preamble {
                Some(p) => Some(*p),
                None => None,
            },
        ),
{
    let s = chars_of(code);
    let base = if contains_placeholder_opening(&s) {
        String::from_str(code)
    } else {
        match preamble {
            Some(p) => match inject_preamble(code, p, theme) {
                Ok(c) => c,
                Err(e) => return Err(e),
            },
            None => String::from_str(code),
        }
    };
    apply_theme(base.as_str(), theme)
}

} // verus!

verus! {

proof fn lemma_plain_text_unchanged(s: Seq<char>, i: int, theme: Map<Seq<char>, Seq<char>>)
    requires
        0 <= i <= s.len(),
        !has_placeholder_opening(s),
    ensures
        substituted_from(s, i, theme) == s.skip(i),
        missing_from(s, i, theme).len() == 0,
    decreases s.len() - i,
{
    if i < s.len() {
        assert(!occurs_at(s, i, seq!['{', '{']));
        lemma_plain_text_unchanged(s, i + 1, theme);
        assert(s.skip(i) == seq![s[i]] + s.skip(i + 1));
    } else {
        assert(s.skip(i).len() == 0);
    }
}

/// A text without `{{` comes out of the theme as it went in, whatever the theme.
pub proof fn law_plain_text_is_kept(s: Seq<char>, theme: Map<Seq<char>, Seq<char>>)
    requires
        !has_placeholder_opening(s),
    ensures
        themed(s, theme) == Ok::<Seq<char>, Seq<Seq<char>>>(s),
{
    lemma_plain_text_unchanged(s, 0, theme);
    assert(s.skip(0) == s);
}

} // verus!

verus! {

/// Every text of `v` comes before the texts after it.
pub open spec fn strictly_sorted(v: Seq<Seq<char>>) -> bool {
    forall|i: int, j: int| 0 <= i < j < v.len() ==> key_less(#[trigger] v[i], #[trigger] v[j])
}

proof fn lemma_key_less_irreflexive(a: Seq<char>)
    ensures
        !key_less(a, a),
    decreases a.len(),
{
    if a.len() > 0 {
        lemma_key_less_irreflexive(a.drop_first());
    }
}

proof fn lemma_key_less_transitive(a: Seq<char>, b: Seq<char>, c: Seq<char>)
    requires
        key_less(a, b),
        key_less(b, c),
    ensures
        key_less(a, c),
    decreases a.len(),
{
    if a.len() > 0 && b.len() > 0 && c.len() > 0 && a[0] == b[0] && b[0] == c[0] {
        lemma_key_less_transitive(a.drop_first(), b.drop_first(), c.drop_first());
    }
}

proof fn lemma_key_less_total(a: Seq<char>, b: Seq<char>)
    requires
        a != b,
    ensures
        key_less(a, b) || key_less(b, a),
    decreases a.len(),
{
    if a.len() > 0 && b.len() > 0 && a[0] == b[0] {
        if a.drop_first() == b.drop_first() {
            assert(a =~= seq![a[0]] + a.drop_first());
            assert(b =~= seq![b[0]] + b.drop_first());
        }
        lemma_key_less_total(a.drop_first(), b.drop_first());
    } else if a.len() == 0 && b.len() == 0 {
        assert(a =~= b);
    }
}

proof fn lemma_sorted_insert(v: Seq<Seq<char>>, k: Seq<char>)
    requires
        strictly_sorted(v),
    ensures
        strictly_sorted(sorted_insert(v, k)),
        forall|x: Seq<char>| #[trigger] sorted_insert(v, k).contains(x) <==> (v.contains(x) || x == k),
    decreases v.len(),
{
    let r = sorted_insert(v, k);
    if v.len() == 0 {
        assert(r == seq![k]);
        assert forall|x: Seq<char>| #[trigger] r.contains(x) <==> (v.contains(x) || x == k) by {
            if x == k {
                assert(r[0] == k);
            }
        }
    } else if v[0] == k {
        assert forall|x: Seq<char>| #[trigger] r.contains(x) <==> (v.contains(x) || x == k) by {
            if x == k {
                assert(v[0] == k);
            }
        }
    } else if key_less(k, v[0]) {
        assert(r == seq![k] + v);
        assert forall|i: int, j: int| 0 <= i < j < r.len() implies key_less(#[trigger] r[i], #[trigger] r[j]) by {
            if i == 0 {
                if j > 1 {
                    lemma_key_less_transitive(k, v[0], v[j - 1]);
                }
            } else {
                assert(r[i] == v[i - 1] && r[j] == v[j - 1]);
            }
        }
        assert forall|x: Seq<char>| #[trigger] r.contains(x) <==> (v.contains(x) || x == k) by {
            if r.contains(x) {
                let i = choose|i: int| 0 <= i < r.len() && r[i] == x;
                if i > 0 {
                    assert(v[i - 1] == x);
                }
            }
            if v.contains(x) {
                let i = choose|i: int| 0 <= i < v.len() && v[i] == x;
                assert(r[i + 1] == x);
            }
            if x == k {
                assert(r[0] == k);
            }
        }
    } else {
        lemma_key_less_total(k, v[0]);
        let rest = v.drop_first();
        assert(strictly_sorted(rest)) by {
            assert forall|i: int, j: int| 0 <= i < j < rest.len() implies key_less(#[trigger] rest[i], #[trigger] rest[j]) by {
                assert(rest[i] == v[i + 1] && rest[j] == v[j + 1]);
            }
        }
        lemma_sorted_insert(rest, k);
        let t = sorted_insert(rest, k);
        assert(r == seq![v[0]] + t);
        assert forall|j: int| 0 <= j < t.len() implies key_less(v[0], #[trigger] t[j]) by {
            assert(t.contains(t[j]));
            if t[j] != k {
                let i = choose|i: int| 0 <= i < rest.len() && rest[i] == t[j];
                assert(v[i + 1] == t[j]);
            }
        }
        assert forall|i: int, j: int| 0 <= i < j < r.len() implies key_less(#[trigger] r[i], #[trigger] r[j]) by {
            if i == 0 {
                assert(r[j] == t[j - 1]);
            } else {
                assert(r[i] == t[i - 1] && r[j] == t[j - 1]);
            }
        }
        assert forall|x: Seq<char>| #[trigger] r.contains(x) <==> (v.contains(x) || x == k) by {
            if r.contains(x) {
                let i = choose|i: int| 0 <= i < r.len() && r[i] == x;
                if i == 0 {
                    assert(v[0] == x);
                } else {
                    assert(t[i - 1] == x);
                    assert(t.contains(x));
                    if x != k {
                        let j = choose|j: int| 0 <= j < rest.len() && rest[j] == x;
                        assert(v[j + 1] == x);
                    }
                }
            }
            if v.contains(x) {
                let i = choose|i: int| 0 <= i < v.len() && v[i] == x;
                if i == 0 {
                    assert(r[0] == x);
                } else {
                    assert(rest[i - 1] == x);
                    assert(rest.contains(x));
                    assert(t.contains(x));
                    let j = choose|j: int| 0 <= j < t.len() && t[j] == x;
                    assert(r[j + 1] == x);
                }
            }
            if x == k {
                assert(t.contains(k));
                let j = choose|j: int| 0 <= j < t.len() && t[j] == k;
                assert(r[j + 1] == k);
            }
        }
    }
}

/// The missing token names are reported in order and without repeats, and
/// they are exactly the names that were missing.
pub proof fn law_sorted_keys_are_ordered_and_complete(s: Seq<Seq<char>>)
    ensures
        strictly_sorted(sort_keys(s)),
        forall|i: int, j: int| 0 <= i < j < sort_keys(s).len() ==> sort_keys(s)[i] != sort_keys(s)[j],
        forall|x: Seq<char>| #[trigger] sort_keys(s).contains(x) <==> s.contains(x),
    decreases s.len(),
{
    if s.len() > 0 {
        law_sorted_keys_are_ordered_and_complete(s.drop_last());
        lemma_sorted_insert(sort_keys(s.drop_last()), s.last());
        assert forall|x: Seq<char>| #[trigger] sort_keys(s).contains(x) <==> s.contains(x) by {
            if s.drop_last().contains(x) {
                let i = choose|i: int| 0 <= i < s.drop_last().len() && s.drop_last()[i] == x;
                assert(s[i] == x);
            }
            if s.contains(x) {
                let i = choose|i: int| 0 <= i < s.len() && s[i] == x;
                if i < s.len() - 1 {
                    assert(s.drop_last()[i] == x);
                }
            }
        }
    }
    let v = sort_keys(s);
    assert forall|i: int, j: int| 0 <= i < j < v.len() implies v[i] != v[j] by {
        if v[i] == v[j] {
            lemma_key_less_irreflexive(v[i]);
        }
    }
}

} // verus!
