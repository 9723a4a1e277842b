//! A diagram code block found in a chapter, and the names of the files
//! rendered from it.

use vstd::prelude::*;
use crate::text::{decimal, digit_char, occurs_at, push_char, push_decimal, replace_all, lemma_replace_all_clean_prefix};

verus! {

/// Suffix shared by every rendered diagram file.
pub const OUTPUT_SUFFIX: &'static str = "modern-dot.svg";

/// ASCII letters and digits.
pub open spec fn is_ascii_alphanumeric(c: char) -> bool {
    ||| ('a' <= c && c <= 'z')
    ||| ('A' <= c && c <= 'Z')
    ||| ('0' <= c && c <= '9')
}

/// `char::to_ascii_lowercase`.
pub open spec fn ascii_lower(c: char) -> char {
    if 'A' <= c && c <= 'Z' {
        (((c as u32) + 32) as u8) as char
    } else {
        c
    }
}

fn ascii_lower_char(c: char) -> (r: char)
    ensures
        r == ascii_lower(c),
{
    if 'A' <= c && c <= 'Z' {
        let b: u8 = c as u8;
        (b + 32) as char
    } else {
        c
    }
}

/// What one character of a name becomes in a file name: ASCII letters (in
/// lower case) and digits are kept, every other character becomes `_`.
pub open spec fn slug_char(c: char) -> char {
    if is_ascii_alphanumeric(c) {
        ascii_lower(c)
    } else {
        '_'
    }
}

/// A character that file names are made of: a lower-case ASCII letter, a digit or `_`.
pub open spec fn is_slug_char(c: char) -> bool {
    ('a' <= c && c <= 'z') || ('0' <= c && c <= '9') || c == '_'
}

/// The file-name form of a chapter or graph name.
pub open spec fn slug(s: Seq<char>) -> Seq<char>
    decreases s.len(),
{
    if s.len() == 0 {
        Seq::empty()
    } else {
        slug(s.drop_last()).push(slug_char(s.last()))
    }
}

/// The file-name form of `content`.
pub fn slug_of(content: &str) -> (r: String)
    ensures
        r@ == slug(content@),
        forall|k: int| 0 <= k < r@.len() ==> is_slug_char(#[trigger] r@[k]),
{
    let mut r = String::new();
    for c in it: content.chars()
        invariant
            it.seq() == content@,
            r@ == slug(content@.take(it.index() as int)),
            forall|k: int| 0 <= k < r@.len() ==> is_slug_char(#[trigger] r@[k]),
    {
        let ghost i = it.index() as int;
        assert(content@.take(i + 1).drop_last() == content@.take(i));
        assert(content@[i] == c);
        if ('a' <= c && c <= 'z') || ('A' <= c && c <= 'Z') || ('0' <= c && c <= '9') {
            let l = ascii_lower_char(c);
            assert((((c as u32) + 32) as u8) as u32 == (c as u32) + 32 || !('A' <= c && c <= 'Z'));
            push_char(&mut r, l);
        } else {
            push_char(&mut r, '_');
        }
    }
    assert(content@.take(content@.len() as int) == content@);
    r
}

/// The stem shared by the names of a diagram's files: the chapter's slug, the
/// graph's slug where the graph has a name, and the diagram's index, joined by `_`.
pub open spec fn stem(chapter_name: Seq<char>, graph_name: Seq<char>, index: nat) -> Seq<char> {
    if graph_name.len() == 0 {
        slug(chapter_name) + seq!['_'] + decimal(index)
    } else {
        slug(chapter_name) + seq!['_'] + slug(graph_name) + seq!['_'] + decimal(index)
    }
}

/// The name of the light (or only) rendered file.
pub open spec fn light_name(chapter_name: Seq<char>, graph_name: Seq<char>, index: nat) -> Seq<char> {
    stem(chapter_name, graph_name, index) + seq!['.'] + OUTPUT_SUFFIX@
}

/// The name of the dark rendered file for the given suffix.
pub open spec fn dark_name(chapter_name: Seq<char>, graph_name: Seq<char>, index: nat, dark_suffix: Seq<char>) -> Seq<char> {
    stem(chapter_name, graph_name, index) + seq!['.'] + "modern-dot"@ + dark_suffix + ".svg"@
}

/// `name` placed in the directory `dir`, as `Path::join` places a relative
/// name without separators on Unix.
pub open spec fn join_path(dir: Seq<char>, name: Seq<char>) -> Seq<char> {
    if dir.len() == 0 || dir.last() == '/' {
        dir + name
    } else {
        dir + seq!['/'] + name
    }
}

/// A diagram code block of a chapter.
#[derive(Debug, Clone)]
pub struct DiagramBlock {
    /// The title written after the info string, trimmed (may be empty).
    pub graph_name: String,
    /// The Graphviz source, trimmed.
    pub code: String,
    /// The chapter's name, trimmed.
    pub chapter_name: String,
    /// The directory of the chapter's source file.
    pub chapter_path: String,
    /// The position of the block among the chapter's diagrams, from 0.
    pub index: usize,
}

/// A [`DiagramBlock`] seen as texts.
pub struct BlockText {
    pub graph_name: Seq<char>,
    pub code: Seq<char>,
    pub chapter_name: Seq<char>,
    pub chapter_path: Seq<char>,
    pub index: nat,
}

impl View for DiagramBlock {
    type V = BlockText;

    open spec fn view(&self) -> BlockText {
        BlockText {
            graph_name: self.graph_name@,
            code: self.code@,
            chapter_name: self.chapter_name@,
            chapter_path: self.chapter_path@,
            index: self.index as nat,
        }
    }
}

proof fn lemma_decimal_digits(n: nat)
    ensures
        forall|k: int| 0 <= k < decimal(n).len() ==> '0' <= #[trigger] decimal(n)[k] <= '9',
    decreases n,
{
    if n >= 10 {
        lemma_decimal_digits(n / 10);
        let d = n % 10;
        assert((((d + 48) as u8) as char) as u32 == d + 48);
        let p = decimal(n / 10);
        assert(decimal(n) == p.push(digit_char(d)));
        assert forall|k: int| 0 <= k < decimal(n).len() implies '0' <= #[trigger] decimal(n)[k] <= '9' by {
            if k < p.len() {
                assert(decimal(n)[k] == p[k]);
            }
        }
    } else {
        assert((((n + 48) as u8) as char) as u32 == n + 48);
    }
}

impl DiagramBlock {
    /// The stem of this block's file names.
    pub open spec fn spec_stem(&self) -> Seq<char> {
        stem(self.chapter_name@, self.graph_name@, self.index as nat)
    }

    /// The stem of this block's file names (see [`stem`]).
    pub fn stem(&self) -> (r: String)
        ensures
            r@ == self.spec_stem(),
            forall|k: int| 0 <= k < r@.len() ==> is_slug_char(#[trigger] r@[k]),
    {
        let mut r = slug_of(self.chapter_name.as_str());
        push_char(&mut r, '_');
        if self.graph_name.as_str().unicode_len() != 0 {
            let g = slug_of(self.graph_name.as_str());
            r.append(g.as_str());
            push_char(&mut r, '_');
        }
        let ghost before = r@;
        push_decimal(&mut r, self.index);
        proof {
            lemma_decimal_digits(self.index as nat);
            assert forall|k: int| 0 <= k < r@.len() implies is_slug_char(#[trigger] r@[k]) by {
                if k >= before.len() {
                    assert(r@[k] == decimal(self.index as nat)[k - before.len()]);
                }
            }
        }
        r
    }

    /// A copy of the block.
    pub fn duplicate(&self) -> (r: DiagramBlock)
        ensures
            r@ == self@,
    {
        DiagramBlock {
            graph_name: self.graph_name.clone(),
            code: self.code.clone(),
            chapter_name: self.chapter_name.clone(),
            chapter_path: self.chapter_path.clone(),
            index: self.index,
        }
    }

    /// The file name of the light (or only) rendering: the stem, a dot and
    /// `modern-dot.svg`.
    pub fn light_file_name(&self) -> (r: String)
        ensures
            r@ == light_name(self.chapter_name@, self.graph_name@, self.index as nat),
    {
        let mut r = self.stem();
        push_char(&mut r, '.');
        r.append(OUTPUT_SUFFIX);
        r
    }

    /// The file name of the dark rendering: the light file name with
    /// `modern-dot.svg` replaced by `modern-dot`, the suffix and `.svg`.
    pub fn dark_file_name(&self, dark_suffix: &str) -> (r: String)
        ensures
            r@ == dark_name(self.chapter_name@, self.graph_name@, self.index as nat, dark_suffix@),
            r@ == replace_all(
                light_name(self.chapter_name@, self.graph_name@, self.index as nat),
                OUTPUT_SUFFIX@,
                "modern-dot"@ + dark_suffix@ + ".svg"@,
            ),
    {
        let mut r = self.stem();
        let ghost st = r@;
        push_char(&mut r, '.');
        r.append("modern-dot");
        r.append(dark_suffix);
        r.append(".svg");
        proof {
            reveal_strlit("modern-dot.svg");
            let a = st + seq!['.'];
            let p = OUTPUT_SUFFIX@;
            let rep = "modern-dot"@ + dark_suffix@ + ".svg"@;
            assert(p.len() == 14);
            assert(p[6] == '-');
            assert forall|i: int| 0 <= i < a.len() implies !occurs_at(a + p, i, p) by {
                if occurs_at(a + p, i, p) {
                    assert((a + p).subrange(i, i + 14)[6] == p[6]);
                    assert((a + p)[i + 6] == '-');
                    if i + 6 < a.len() {
                        if i + 6 < st.len() {
                            assert(is_slug_char(st[i + 6]));
                        }
                    } else {
                        assert((a + p)[i + 6] == p[i + 6 - a.len()]);
                    }
                }
            }
            lemma_replace_all_clean_prefix(a, p, p, rep);
            assert(p.subrange(0, 14) =~= p);
            assert(occurs_at(p, 0, p));
            assert(p.skip(14).len() == 0);
            assert(replace_all(p, p, rep) == rep + replace_all(p.skip(14), p, rep));
            assert(replace_all(p, p, rep) == rep);
        }
        r
    }

    /// The path of the light (or only) rendering, in the chapter's directory.
    pub fn light_path(&self) -> (r: String)
        ensures
            r@ == join_path(self.chapter_path@, light_name(self.chapter_name@, self.graph_name@, self.index as nat)),
    {
        let name = self.light_file_name();
        join_file_name(self.chapter_path.as_str(), name.as_str())
    }

    /// The path of the dark rendering, in the chapter's directory.
    pub fn dark_path(&self, dark_suffix: &str) -> (r: String)
        ensures
            r@ == join_path(
                self.chapter_path@,
                dark_name(self.chapter_name@, self.graph_name@, self.index as nat, dark_suffix@),
            ),
    {
        let name = self.dark_file_name(dark_suffix);
        join_file_name(self.chapter_path.as_str(), name.as_str())
    }
}

/// `name` placed in the directory `dir` (see [`join_path`]).
pub fn join_file_name(dir: &str, name: &str) -> (r: String)
    ensures
        r@ == join_path(dir@, name@),
{
    let n = dir.unicode_len();
    let mut r = String::from_str(dir);
    if n != 0 && dir.get_char(n - 1) != '/' {
        push_char(&mut r, '/');
    }
    r.append(name);
    r
}

} // verus!

verus! {

/// With an empty dark suffix the dark file takes the light file's name.
pub proof fn law_empty_dark_suffix_is_light_name(chapter_name: Seq<char>, graph_name: Seq<char>, index: nat)
    ensures
        dark_name(chapter_name, graph_name, index, Seq::empty()) == light_name(chapter_name, graph_name, index),
{
    reveal_strlit("modern-dot");
    reveal_strlit(".svg");
    reveal_strlit("modern-dot.svg");
    let st = stem(chapter_name, graph_name, index) + seq!['.'];
    assert("modern-dot"@ + Seq::<char>::empty() + ".svg"@ =~= OUTPUT_SUFFIX@);
    assert(st + "modern-dot"@ + Seq::<char>::empty() + ".svg"@ =~= st + ("modern-dot"@ + Seq::<char>::empty() + ".svg"@));
}

} // verus!

verus! {

/// A name's file-name form has one character for each of the name's
/// characters, each a lower-case ASCII letter, a digit or `_`.
pub proof fn law_slug_shape(s: Seq<char>)
    ensures
        slug(s).len() == s.len(),
        forall|k: int| 0 <= k < s.len() ==> #[trigger] slug(s)[k] == slug_char(s[k]),
        forall|k: int| 0 <= k < s.len() ==> is_slug_char(#[trigger] slug(s)[k]),
    decreases s.len(),
{
    if s.len() > 0 {
        law_slug_shape(s.drop_last());
        let p = slug(s.drop_last());
        assert forall|k: int| 0 <= k < s.len() implies #[trigger] slug(s)[k] == slug_char(s[k]) by {
            if k < s.len() - 1 {
                assert(slug(s)[k] == p[k]);
                assert(s.drop_last()[k] == s[k]);
            }
        }
        assert forall|k: int| 0 <= k < s.len() implies is_slug_char(#[trigger] slug(s)[k]) by {
            let c = s[k];
            assert(slug(s)[k] == slug_char(c));
            if 'A' <= c && c <= 'Z' {
                assert((((c as u32) + 32) as u8) as u32 == (c as u32) + 32);
            }
        }
    }
}

} // verus!

verus! {

proof fn lemma_digit_char_injective(a: nat, b: nat)
    requires
        a < 10,
        b < 10,
        digit_char(a) == digit_char(b),
    ensures
        a == b,
{
    assert((((a + 48) as u8) as char) as u32 == a + 48);
    assert((((b + 48) as u8) as char) as u32 == b + 48);
}

proof fn lemma_decimal_len(n: nat)
    ensures
        (decimal(n).len() == 1) <==> n < 10,
        decimal(n).len() >= 1,
    decreases n,
{
    if n >= 10 {
        lemma_decimal_len(n / 10);
    }
}

/// Different numbers are written differently.
proof fn lemma_decimal_injective(n: nat, m: nat)
    requires
        decimal(n) == decimal(m),
    ensures
        n == m,
    decreases n,
{
    lemma_decimal_len(n);
    lemma_decimal_len(m);
    if n < 10 {
        assert(decimal(n)[0] == digit_char(n));
        assert(decimal(m)[0] == digit_char(m));
        lemma_digit_char_injective(n, m);
    } else {
        let dn = decimal(n);
        assert(dn.last() == digit_char(n % 10));
        assert(decimal(m).last() == digit_char(m % 10));
        lemma_digit_char_injective(n % 10, m % 10);
        assert(dn.drop_last() == decimal(n / 10));
        assert(decimal(m).drop_last() == decimal(m / 10));
        lemma_decimal_injective(n / 10, m / 10);
    }
}

/// The stem ends with `_` and the index written in decimal.
proof fn lemma_stem_ends_with_index(chapter_name: Seq<char>, graph_name: Seq<char>, index: nat)
    ensures
        exists|p: Seq<char>| stem(chapter_name, graph_name, index) == #[trigger] (p + seq!['_']) + decimal(index),
{
    let p = if graph_name.len() == 0 {
        slug(chapter_name)
    } else {
        slug(chapter_name) + seq!['_'] + slug(graph_name)
    };
    assert(stem(chapter_name, graph_name, index) == (p + seq!['_']) + decimal(index));
}

/// Two texts that end with `_` and a run of digits end with the same digits
/// where they are equal.
proof fn lemma_digits_after_last_underscore(a: Seq<char>, d1: Seq<char>, b: Seq<char>, d2: Seq<char>)
    requires
        (a + seq!['_']) + d1 == (b + seq!['_']) + d2,
        forall|k: int| 0 <= k < d1.len() ==> '0' <= #[trigger] d1[k] <= '9',
        forall|k: int| 0 <= k < d2.len() ==> '0' <= #[trigger] d2[k] <= '9',
    ensures
        d1 == d2,
{
    let x = (a + seq!['_']) + d1;
    let y = (b + seq!['_']) + d2;
    if d1.len() < d2.len() {
        let i = x.len() - d1.len() - 1;
        assert(x[i] == '_');
        assert(y[i] == d2[i - b.len() - 1]);
    } else if d2.len() < d1.len() {
        let i = y.len() - d2.len() - 1;
        assert(y[i] == '_');
        assert(x[i] == d1[i - a.len() - 1]);
    } else {
        assert(d1 =~= x.skip(x.len() - d1.len()));
        assert(d2 =~= y.skip(y.len() - d2.len()));
    }
}

proof fn lemma_same_stem_same_index(c1: Seq<char>, g1: Seq<char>, i1: nat, c2: Seq<char>, g2: Seq<char>, i2: nat)
    requires
        stem(c1, g1, i1) == stem(c2, g2, i2),
    ensures
        i1 == i2,
{
    lemma_stem_ends_with_index(c1, g1, i1);
    lemma_stem_ends_with_index(c2, g2, i2);
    let p1 = choose|p: Seq<char>| stem(c1, g1, i1) == #[trigger] (p + seq!['_']) + decimal(i1);
    let p2 = choose|p: Seq<char>| stem(c2, g2, i2) == #[trigger] (p + seq!['_']) + decimal(i2);
    lemma_decimal_digits(i1);
    lemma_decimal_digits(i2);
    lemma_digits_after_last_underscore(p1, decimal(i1), p2, decimal(i2));
    lemma_decimal_injective(i1, i2);
}

proof fn lemma_same_tail_same_head(a: Seq<char>, b: Seq<char>, t: Seq<char>)
    requires
        a + t == b + t,
    ensures
        a == b,
{
    assert(a =~= (a + t).take(a.len() as int));
    assert(b =~= (b + t).take(b.len() as int));
}

/// Diagrams with different indices get different file names, light and dark,
/// whatever their chapter and graph names: the index is the last
/// `_`-separated part of the stem, so no two diagrams of a chapter share an
/// output file.
pub proof fn law_distinct_indices_give_distinct_names(
    chapter_1: Seq<char>,
    graph_1: Seq<char>,
    index_1: nat,
    chapter_2: Seq<char>,
    graph_2: Seq<char>,
    index_2: nat,
    dark_suffix: Seq<char>,
)
    requires
        index_1 != index_2,
    ensures
        light_name(chapter_1, graph_1, index_1) != light_name(chapter_2, graph_2, index_2),
        dark_name(chapter_1, graph_1, index_1, dark_suffix) != dark_name(chapter_2, graph_2, index_2, dark_suffix),
{
    let s1 = stem(chapter_1, graph_1, index_1);
    let s2 = stem(chapter_2, graph_2, index_2);
    let light_tail = seq!['.'] + OUTPUT_SUFFIX@;
    let dark_tail = seq!['.'] + "modern-dot"@ + dark_suffix + ".svg"@;
    if light_name(chapter_1, graph_1, index_1) == light_name(chapter_2, graph_2, index_2) {
        assert(light_name(chapter_1, graph_1, index_1) =~= s1 + light_tail);
        assert(light_name(chapter_2, graph_2, index_2) =~= s2 + light_tail);
        lemma_same_tail_same_head(s1, s2, light_tail);
        lemma_same_stem_same_index(chapter_1, graph_1, index_1, chapter_2, graph_2, index_2);
    }
    if dark_name(chapter_1, graph_1, index_1, dark_suffix) == dark_name(chapter_2, graph_2, index_2, dark_suffix) {
        assert(dark_name(chapter_1, graph_1, index_1, dark_suffix) =~= s1 + dark_tail);
        assert(dark_name(chapter_2, graph_2, index_2, dark_suffix) =~= s2 + dark_tail);
        lemma_same_tail_same_head(s1, s2, dark_tail);
        lemma_same_stem_same_index(chapter_1, graph_1, index_1, chapter_2, graph_2, index_2);
    }
}

} // verus!
