//! Input of FFmpeg's concat demuxer: the list of files to join, in order.
use vstd::prelude::*;
use crate::chars::{chars_of, push_all};

verus! {

/// A path quoted for the list: each `'` written as `'\''`.
pub open spec fn quote_path(p: Seq<char>) -> Seq<char>
    decreases p.len(),
{
    if p.len() == 0 {
        Seq::empty()
    } else {
        quote_path(p.drop_last()) + if p.last() == '\'' {
            seq!['\'', '\\', '\'', '\'']
        } else {
            seq![p.last()]
        }
    }
}

/// One `file '<path>'` line per path.
pub open spec fn concat_list_spec(ps: Seq<String>) -> Seq<char>
    decreases ps.len(),
{
    if ps.len() == 0 {
        Seq::empty()
    } else {
        concat_list_spec(ps.drop_last()) + "file '"@ + quote_path(ps.last()@) + "'\n"@
    }
}

fn push_quoted(out: &mut String, p: &str)
    ensures
        final(out)@ == old(out)@ + quote_path(p@),
{
    let cs = chars_of(p);
    let ghost start = out@;
    let mut i: usize = 0;
    while i < cs.len()
        invariant
            i <= cs@.len(),
            cs@ == p@,
            out@ == start + quote_path(cs@.take(i as int)),
        decreases cs@.len() - i,
    {
        assert(cs@.take(i + 1).drop_last() =~= cs@.take(i as int));
        assert(cs@.take(i + 1).last() == cs@[i as int]);
        let ghost before = out@;
        if cs[i] == '\'' {
            out.push('\'');
            out.push('\\');
            out.push('\'');
            out.push('\'');
            assert(out@ =~= before + seq!['\'', '\\', '\'', '\'']);
        } else {
            out.push(cs[i]);
            assert(out@ =~= before + seq![cs@[i as int]]);
        }
        i = i + 1;
    }
    assert(cs@.take(i as int) =~= cs@);
}

/// The concat list for the given audio files.
pub fn concat_list(paths: &Vec<String>) -> (r: String)
    ensures
        r@ == concat_list_spec(paths@),
{
    let mut out = String::new();
    let mut i: usize = 0;
    while i < paths.len()
        invariant
            i <= paths@.len(),
            out@ == concat_list_spec(paths@.take(i as int)),
        decreases paths@.len() - i,
    {
        assert(paths@.take(i + 1).drop_last() =~= paths@.take(i as int));
        assert(paths@.take(i + 1).last() == paths@[i as int]);
        push_all(&mut out, "file '");
        push_quoted(&mut out, paths[i].as_str());
        push_all(&mut out, "'\n");
        i = i + 1;
    }
    assert(paths@.take(i as int) =~= paths@);
    out
}

} // verus!
