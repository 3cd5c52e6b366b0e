//! Laws of Unix paths.

use vstd::prelude::*;

use crate::paths;
use crate::text;
use crate::text_laws;
use crate::text_laws::each_separator_parts;

verus! {

proof fn lemma_pieces_append(p: Seq<char>, seg: Seq<char>, c: char)
    requires
        text_laws::lacks(seg, c),
    ensures
        text::pieces(p + seq![c] + seg, c) == text::pieces(p, c).push(seg),
    decreases p.len(),
{
    text::lemma_first_at(p, c);
    let n = text::first_at(p, c) as int;
    let whole = p + seq![c] + seg;
    if n >= p.len() {
        assert(text_laws::lacks(p, c));
        each_separator_parts(p, c, seg);
        each_separator_parts(seg, c, Seq::empty());
        assert(seq![p] + seq![seg] =~= seq![p].push(seg));
    } else {
        let head = p.take(n);
        let tail = p.skip(n + 1);
        assert(text_laws::lacks(head, c));
        assert(p =~= head + seq![c] + tail);
        assert(whole =~= head + seq![c] + (tail + seq![c] + seg));
        lemma_pieces_append(tail, seg, c);
        each_separator_parts(head, c, tail);
        each_separator_parts(head, c, tail + seq![c] + seg);
        assert(text::pieces(whole, c) =~= text::pieces(p, c).push(seg));
    }
}

/// The final component of a path is what stands behind its last slash, in whatever directory; an
/// empty component and a single dot add nothing to a path, and a path that ends in the parent
/// directory has no final component.
pub proof fn file_names_follow_the_last_slash(dir: Seq<char>, seg: Seq<char>)
    requires
        text_laws::lacks(seg, '/'),
    ensures
        seg.len() > 0 && seg != seq!['.'] && seg != seq!['.', '.'] ==> paths::base_name(
            dir + seq!['/'] + seg,
        ) == Some(seg) && paths::base_name(seg) == Some(seg),
        seg.len() == 0 || seg == seq!['.'] ==> paths::base_name(dir + seq!['/'] + seg)
            == paths::base_name(dir) && paths::base_name(seg) is None,
        seg == seq!['.', '.'] ==> paths::base_name(dir + seq!['/'] + seg) is None
            && paths::base_name(seg) is None,
{
    lemma_pieces_append(dir, seg, '/');
    each_separator_parts(seg, '/', Seq::empty());
    let all = text::pieces(dir, '/');
    assert(all.push(seg).drop_last() =~= all);
    assert(seq![seg].drop_last() =~= Seq::<Seq<char>>::empty());
    assert(seq![seg].last() == seg);
    assert(paths::last_named(Seq::<Seq<char>>::empty()) is None);
}

/// A file's extension is what stands behind the last dot of its name, unless the name starts with
/// that dot or holds none.
pub proof fn extensions_follow_the_last_dot(path: Seq<char>, stem: Seq<char>, ext: Seq<char>)
    requires
        text_laws::lacks(ext, '.'),
    ensures
        paths::base_name(path) == Some(stem + seq!['.'] + ext) ==> paths::extension_of(path)
            == if stem.len() > 0 {
            Some(ext)
        } else {
            None
        },
        paths::base_name(path) == Some(ext) ==> paths::extension_of(path) is None,
        paths::base_name(path) is None ==> paths::extension_of(path) is None,
{
    let b = stem + seq!['.'] + ext;
    lemma_behind_last_dot(stem.push('.'), ext);
    assert(b =~= stem.push('.') + ext);
    assert(b.skip(stem.len() as int + 1) =~= ext);
    lemma_behind_last_dot(Seq::empty(), ext);
    assert(Seq::empty() + ext =~= ext);
}

proof fn lemma_behind_last_dot(a: Seq<char>, ext: Seq<char>)
    requires
        text_laws::lacks(ext, '.'),
        a.len() > 0 ==> a.last() == '.',
    ensures
        paths::behind_last_dot(a + ext) == a.len(),
    decreases ext.len(),
{
    if ext.len() > 0 {
        assert((a + ext).drop_last() =~= a + ext.drop_last());
        assert((a + ext).last() == ext[ext.len() - 1]);
        lemma_behind_last_dot(a, ext.drop_last());
    } else {
        assert(a + ext =~= a);
    }
}

/// A name below a directory is the final component of its path, whether or not the directory is
/// written with a slash at its end. An absolute path stays as it is.
pub proof fn joined_paths_lead_below_their_directory(dir: Seq<char>, tail: Seq<char>)
    ensures
        tail.len() > 0 && tail[0] == '/' ==> paths::joined_path(dir, tail) == tail,
        !(tail.len() > 0 && tail[0] == '/') ==> paths::joined_path(dir.push('/'), tail)
            == dir.push('/') + tail,
        !(tail.len() > 0 && tail[0] == '/') && dir.len() > 0 && dir.last() != '/'
            ==> paths::joined_path(dir, tail) == paths::joined_path(dir.push('/'), tail),
        !(tail.len() > 0 && tail[0] == '/') ==> paths::joined_path(Seq::empty(), tail) == tail,
{
    assert(Seq::empty() + tail =~= tail);
}

/// Where a path has a final component, that is used; where it has none, nothing or the path itself.
pub proof fn paths_without_a_name_stand_in(path: Seq<char>)
    ensures
        paths::base_name(path) matches Some(b) ==> paths::base_or_empty(path) == b
            && paths::base_or_self(path) == b,
        paths::base_name(path) is None ==> paths::base_or_empty(path).len() == 0
            && paths::base_or_self(path) == path,
{
}

} // verus!
