//! Rust source for an embedded recipe tree.
//!
//! A crate that ships recipes bakes its `recipes/` directory into the binary
//! as one `&[(path, include_bytes!(abs))]` literal. The caller walks the
//! tree; [`generate_embed_code`] orders what it found and writes the literal.

use vstd::prelude::*;

use crate::conformance::order::{is_permutation, key_values, nondecreasing, permuted, sort_by_keys};
use crate::index::identity::{KeyAtom, atoms, push_text, txt};
use crate::text::{append_str, debug_literal, str_debug, text};

verus! {

/// A found file as text: its slash-separated path relative to the tree,
/// and its absolute path.
pub open spec fn files_view(v: Seq<(String, String)>) -> Seq<(Seq<char>, Seq<char>)> {
    v.map_values(|f: (String, String)| (f.0@, f.1@))
}

/// The order of files: by relative path, then by absolute path.
pub open spec fn file_key(f: (Seq<char>, Seq<char>)) -> Seq<(int, Seq<char>)> {
    seq![txt(f.0), txt(f.1)]
}

/// One line of the literal.
pub open spec fn embed_line(f: (Seq<char>, Seq<char>)) -> Seq<char> {
    "    ("@ + str_debug(f.0) + ", include_bytes!("@ + str_debug(f.1) + ") as &[u8]),\n"@
}

/// The lines of the literal, one per file, in order.
pub open spec fn embed_lines(fs: Seq<(Seq<char>, Seq<char>)>) -> Seq<char>
    decreases fs.len(),
{
    if fs.len() == 0 {
        Seq::empty()
    } else {
        embed_lines(fs.drop_last()) + embed_line(fs.last())
    }
}

/// The whole literal for files already in order.
pub open spec fn embed_source(fs: Seq<(Seq<char>, Seq<char>)>) -> Seq<char> {
    "&[\n"@ + embed_lines(fs) + "]\n"@
}

/// The files taken in the given order.
pub open spec fn files_in(fs: Seq<(Seq<char>, Seq<char>)>, order: Seq<usize>) -> Seq<
    (Seq<char>, Seq<char>),
> {
    Seq::new(order.len(), |p: int| fs[order[p] as int])
}

/// Returns the Rust source of an embedded-tree literal for the found files:
/// the files sorted by relative path (then absolute path), one
/// `(rel, include_bytes!(abs) as &[u8])` entry per line. No files give an
/// empty slice.
pub fn generate_embed_code(files: &Vec<(String, String)>) -> (code: String)
    ensures
        exists|order: Seq<usize>|
            {
                &&& is_permutation(order, files@.len() as int)
                &&& nondecreasing(
                    permuted(files_view(files@).map_values(|f: (Seq<char>, Seq<char>)| file_key(f)), order),
                )
                &&& code@ == embed_source(files_in(files_view(files@), order))
            },
{
    let ghost fv = files_view(files@);
    let ghost fk = fv.map_values(|f: (Seq<char>, Seq<char>)| file_key(f));
    let mut keys: Vec<Vec<KeyAtom>> = Vec::new();
    let mut i: usize = 0;
    while i < files.len()
        invariant
            i <= files@.len(),
            fv == files_view(files@),
            fk == fv.map_values(|f: (Seq<char>, Seq<char>)| file_key(f)),
            keys@.len() == i,
            forall|p: int| 0 <= p < i ==> atoms(#[trigger] keys@[p]@) == fk[p],
        decreases files@.len() - i,
    {
        let mut k: Vec<KeyAtom> = Vec::new();
        assert(atoms(k@) =~= Seq::empty());
        push_text(&mut k, files[i].0.as_str());
        push_text(&mut k, files[i].1.as_str());
        assert(atoms(k@) =~= fk[i as int]);
        keys.push(k);
        i += 1;
    }
    assert(key_values(keys@) =~= fk) by {
        assert forall|p: int| 0 <= p < fk.len() implies key_values(keys@)[p] == fk[p] by {
            assert(atoms(keys@[p]@) == fk[p]);
        }
    }
    let order = sort_by_keys(&keys);
    let ghost sel = files_in(fv, order@);
    let mut code = text("&[\n");
    let mut j: usize = 0;
    while j < order.len()
        invariant
            j <= order@.len(),
            order@.len() == files@.len(),
            is_permutation(order@, files@.len() as int),
            fv == files_view(files@),
            sel == files_in(fv, order@),
            code@ == "&[\n"@ + embed_lines(sel.take(j as int)),
        decreases order@.len() - j,
    {
        let at = order[j];
        let rel = debug_literal(files[at].0.as_str());
        let abs = debug_literal(files[at].1.as_str());
        append_str(&mut code, "    (");
        append_str(&mut code, rel.as_str());
        append_str(&mut code, ", include_bytes!(");
        append_str(&mut code, abs.as_str());
        append_str(&mut code, ") as &[u8]),\n");
        proof {
            assert(sel[j as int] == fv[at as int]);
            assert(sel.take(j + 1).drop_last() =~= sel.take(j as int));
            assert(sel.take(j + 1).last() == sel[j as int]);
        }
        j += 1;
        assert(code@ =~= "&[\n"@ + embed_lines(sel.take(j as int)));
    }
    assert(sel.take(j as int) =~= sel);
    append_str(&mut code, "]\n");
    assert(code@ =~= embed_source(sel));
    code
}

} // verus!
