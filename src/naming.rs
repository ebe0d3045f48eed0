//! Book file naming: the metadata summary handed to a naming model, and the
//! clean-up of the proposed name.
use vstd::prelude::*;
use crate::chars::{chars_of, push_all, string_of};
use crate::cleaner::{trim_end, trim_pass, trim_start};

verus! {

/// Metadata read from a book.
#[derive(Debug, Clone)]
pub struct EpubMetadata {
    pub title: Option<String>,
    pub author: Option<String>,
    pub series: Option<String>,
    pub series_index: Option<String>,
}

/// `label` and the value, when there is one.
pub open spec fn labelled(label: Seq<char>, v: Option<String>) -> Seq<Seq<char>> {
    match v {
        Some(s) => seq![label + s@],
        None => Seq::empty(),
    }
}

/// Lines joined by newlines.
pub open spec fn join_lines_nl(ls: Seq<Seq<char>>) -> Seq<char>
    decreases ls.len(),
{
    if ls.len() == 0 {
        Seq::empty()
    } else if ls.len() == 1 {
        ls[0]
    } else {
        join_lines_nl(ls.drop_last()) + seq!['\n'] + ls.last()
    }
}

/// The present fields, one per line.
pub open spec fn context_lines(m: EpubMetadata) -> Seq<Seq<char>> {
    labelled("Title: "@, m.title) + labelled("Author: "@, m.author) + labelled("Series: "@, m.series)
        + labelled("Series Index: "@, m.series_index)
}

fn push_line(out: &mut String, lines: &mut usize, label: &str, v: &Option<String>, ghost_lines: Ghost<Seq<Seq<char>>>)
    requires
        old(out)@ == join_lines_nl(ghost_lines@),
        *old(lines) == ghost_lines@.len(),
        ghost_lines@.len() < 4,
    ensures
        final(out)@ == join_lines_nl(ghost_lines@ + labelled(label@, *v)),
        *final(lines) == (ghost_lines@ + labelled(label@, *v)).len(),
{
    match v {
        Some(s) => {
            let ghost ls = ghost_lines@ + labelled(label@, *v);
            assert(ls.drop_last() =~= ghost_lines@);
            if *lines > 0 {
                out.push('\n');
            } else {
                assert(ghost_lines@ =~= Seq::<Seq<char>>::empty());
            }
            push_all(out, label);
            push_all(out, s.as_str());
            *lines = *lines + 1;
        },
        None => {
            assert(ghost_lines@ + labelled(label@, *v) =~= ghost_lines@);
        },
    }
}

impl EpubMetadata {
    /// The present fields as `Label: value` lines, or nothing when none is set.
    pub fn to_context_string(&self) -> (r: Option<String>)
        ensures
            context_lines(*self).len() == 0 ==> r is None,
            context_lines(*self).len() > 0 ==> (r matches Some(s) && s@ == join_lines_nl(
                context_lines(*self),
            )),
    {
        let mut out = String::new();
        let mut lines: usize = 0;
        let ghost l0 = Seq::<Seq<char>>::empty();
        let ghost l1 = l0 + labelled("Title: "@, self.title);
        let ghost l2 = l1 + labelled("Author: "@, self.author);
        let ghost l3 = l2 + labelled("Series: "@, self.series);
        push_line(&mut out, &mut lines, "Title: ", &self.title, Ghost(l0));
        push_line(&mut out, &mut lines, "Author: ", &self.author, Ghost(l1));
        push_line(&mut out, &mut lines, "Series: ", &self.series, Ghost(l2));
        push_line(&mut out, &mut lines, "Series Index: ", &self.series_index, Ghost(l3));
        assert(l3 + labelled("Series Index: "@, self.series_index) =~= context_lines(*self));
        if lines == 0 {
            None
        } else {
            Some(out)
        }
    }
}

/// Characters not allowed in file names become `_`.
pub open spec fn filename_char(c: char) -> char {
    if c == '/' || c == '\\' || c == ':' || c == '*' || c == '?' || c == '"' || c == '<' || c == '>'
        || c == '|' {
        '_'
    } else {
        c
    }
}

/// A name made safe for a file: forbidden characters replaced, whitespace
/// trimmed.
pub fn sanitize_filename(name: &str) -> (r: String)
    ensures
        r@ == trim_end(trim_start(name@.map_values(|c: char| filename_char(c)))),
{
    let cs = chars_of(name);
    let mut out: Vec<char> = Vec::new();
    let mut i: usize = 0;
    while i < cs.len()
        invariant
            i <= cs@.len(),
            out@ == cs@.take(i as int).map_values(|c: char| filename_char(c)),
        decreases cs@.len() - i,
    {
        let c = cs[i];
        let m = if c == '/' || c == '\\' || c == ':' || c == '*' || c == '?' || c == '"' || c == '<'
            || c == '>' || c == '|' {
            '_'
        } else {
            c
        };
        out.push(m);
        i = i + 1;
        assert(out@ =~= cs@.take(i as int).map_values(|c: char| filename_char(c)));
    }
    assert(cs@.take(i as int) =~= cs@);
    let t = trim_pass(&out);
    string_of(&t)
}

/// The ASCII punctuation characters.
pub open spec fn is_ascii_punct(c: char) -> bool {
    let u = c as u32;
    (0x21 <= u && u <= 0x2f) || (0x3a <= u && u <= 0x40) || (0x5b <= u && u <= 0x60) || (0x7b
        <= u && u <= 0x7e)
}

/// Whether `c` occurs in the optional text.
pub open spec fn occurs_in(v: Option<String>, c: char) -> bool {
    v matches Some(s) && s@.contains(c)
}

/// Punctuation a name may keep: the hyphen, and whatever the original name
/// or the metadata contain.
pub open spec fn allowed_punct(c: char, original: Seq<char>, m: Option<EpubMetadata>) -> bool {
    c == '-' || original.contains(c) || (m matches Some(md) && (occurs_in(md.title, c) || occurs_in(
        md.author,
        c,
    ) || occurs_in(md.series, c) || occurs_in(md.series_index, c)))
}

/// The characters of `s` kept by the punctuation rule.
pub open spec fn keep_punct(s: Seq<char>, original: Seq<char>, m: Option<EpubMetadata>) -> Seq<char>
    decreases s.len(),
{
    if s.len() == 0 {
        Seq::empty()
    } else {
        let c = s.last();
        let rest = keep_punct(s.drop_last(), original, m);
        if !is_ascii_punct(c) || allowed_punct(c, original, m) {
            rest.push(c)
        } else {
            rest
        }
    }
}

fn contains_char(s: &Vec<char>, c: char) -> (r: bool)
    ensures
        r == s@.contains(c),
{
    let mut i: usize = 0;
    while i < s.len()
        invariant
            i <= s@.len(),
            forall|k: int| 0 <= k < i ==> s@[k] != c,
        decreases s@.len() - i,
    {
        if s[i] == c {
            assert(s@[i as int] == c);
            return true;
        }
        i = i + 1;
    }
    false
}

fn occurs_in_exec(v: &Option<String>, c: char) -> (r: bool)
    ensures
        r == occurs_in(*v, c),
{
    match v {
        Some(s) => {
            let cs = chars_of(s.as_str());
            contains_char(&cs, c)
        },
        None => false,
    }
}

/// Drops from a proposed name the ASCII punctuation that neither the
/// original name nor the metadata contain; the hyphen is always kept.
pub fn cleanup_punctuation(proposed: &str, original_filename: &str, metadata: Option<&EpubMetadata>) -> (r: String)
    ensures
        r@ == keep_punct(
            proposed@,
            original_filename@,
            match metadata {
                Some(m) => Some(*m),
                None => None,
            },
        ),
{
    let ghost m = match metadata {
        Some(m) => Some(*m),
        None => None,
    };
    let cs = chars_of(proposed);
    let orig = chars_of(original_filename);
    let mut out: Vec<char> = Vec::new();
    let mut i: usize = 0;
    while i < cs.len()
        invariant
            i <= cs@.len(),
            orig@ == original_filename@,
            m == match metadata {
                Some(x) => Some(*x),
                None => None,
            },
            out@ == keep_punct(cs@.take(i as int), original_filename@, m),
        decreases cs@.len() - i,
    {
        let c = cs[i];
        assert(cs@.take(i + 1).drop_last() =~= cs@.take(i as int));
        assert(cs@.take(i + 1).last() == c);
        let u = c as u32;
        let punct = (0x21 <= u && u <= 0x2f) || (0x3a <= u && u <= 0x40) || (0x5b <= u && u <= 0x60)
            || (0x7b <= u && u <= 0x7e);
        let keep = if !punct {
            true
        } else if c == '-' || contains_char(&orig, c) {
            true
        } else {
            match metadata {
                Some(md) => occurs_in_exec(&md.title, c) || occurs_in_exec(&md.author, c)
                    || occurs_in_exec(&md.series, c) || occurs_in_exec(&md.series_index, c),
                None => false,
            }
        };
        if keep {
            out.push(c);
        }
        i = i + 1;
    }
    assert(cs@.take(i as int) =~= cs@);
    string_of(&out)
}

} // verus!
