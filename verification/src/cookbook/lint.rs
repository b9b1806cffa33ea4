//! Linting one recipe directory.
//!
//! The caller looks at the file system; this module decides. Linting goes in
//! two steps: [`lint_recipe_manifest`] judges the text read from
//! `recipe.toml` and, when that holds a usable manifest, names the setup and
//! purpose files to look at; [`lint_recipe_files`] then judges what was found
//! there. Every problem of a step is reported at once.

use vstd::prelude::*;

use crate::cookbook::manifest::{
    Diagnostic, RecipeManifest, RecipeManifestV, is_bare_quote, parse_recipe, path_messages,
    path_problem, recipe_of, setup_is_bare_quote,
};
use crate::cookbook::toml_lite::spec_parse;
use crate::text::{append_str, concat3, text};

verus! {

/// What the file system showed of a recipe's setup file.
#[derive(Clone, Debug, PartialEq, Eq)]
pub enum SetupProbe {
    /// No regular file at the setup path.
    Missing,
    /// A regular file, not read.
    Present,
    /// A regular file, with its text.
    Read(String),
    /// A regular file that could not be read, with the reason.
    Unreadable(String),
}

/// Paths and messages of a list of diagnostics.
pub open spec fn diags(v: Seq<Diagnostic>) -> Seq<(Seq<char>, Seq<char>)> {
    v.map_values(|d: Diagnostic| (d.path@, d.message@))
}

/// The manifest a `recipe.toml` text holds, if it parses.
pub open spec fn recipe_parse(t: Seq<char>) -> Option<RecipeManifestV> {
    match spec_parse(t) {
        Some(d) => recipe_of(d, None),
        None => None,
    }
}

/// Message for a `recipe.toml` that could not be read.
pub open spec fn unreadable_recipe_message(err: Seq<char>) -> Seq<char> {
    "cannot read recipe.toml: "@ + err
}

/// Message for a named file that does not exist.
pub open spec fn missing_file_message(what: Seq<char>, name: Seq<char>) -> Seq<char> {
    what + name + "` does not exist"@
}

/// Message for a setup file that could not be read.
pub open spec fn unreadable_setup_message(name: Seq<char>, err: Seq<char>) -> Seq<char> {
    "cannot read setup file `"@ + name + "`: "@ + err
}

/// Message for a bare-quote setup under the strict gate.
pub open spec fn bare_quote_message() -> Seq<char> {
    "recipe setup must not be a bare quote; use an operation, codec form, or read-construct"@
}

/// Problems of the first step, for a manifest whose paths are unsafe: each
/// path message, attributed to `recipe.toml`.
pub open spec fn manifest_problems(recipe_path: Seq<char>, m: RecipeManifestV) -> Seq<
    (Seq<char>, Seq<char>),
> {
    path_messages(m.setup, m.purpose).map_values(|msg: Seq<char>| (recipe_path, msg))
}

/// Problems of the second step.
pub open spec fn file_problems(
    recipe_path: Seq<char>,
    m: RecipeManifestV,
    setup_path: Seq<char>,
    setup: SetupProbe,
    purpose_is_file: bool,
    strict_no_quote: bool,
) -> Seq<(Seq<char>, Seq<char>)> {
    let a = match setup {
        SetupProbe::Missing => seq![
            (recipe_path, missing_file_message("setup file `"@, m.setup)),
        ],
        SetupProbe::Present => Seq::empty(),
        SetupProbe::Read(t) => if strict_no_quote && is_bare_quote(t@) {
            seq![(setup_path, bare_quote_message())]
        } else {
            Seq::empty()
        },
        SetupProbe::Unreadable(e) => if strict_no_quote {
            seq![(setup_path, unreadable_setup_message(m.setup, e@))]
        } else {
            Seq::empty()
        },
    };
    let b = if purpose_is_file {
        Seq::empty()
    } else {
        seq![(recipe_path, missing_file_message("purpose file `"@, m.purpose))]
    };
    a + b
}

/// Strict linting of a readable setup, where the purpose file is present:
/// the files pass exactly when the setup is not a bare quote, and otherwise
/// the one problem is the bare-quote message against the setup file. In
/// the default mode, the same files are accepted.
pub proof fn lemma_strict_bare_quote_gate(
    recipe_path: Seq<char>,
    m: RecipeManifestV,
    setup_path: Seq<char>,
    source: String,
)
    ensures
        file_problems(recipe_path, m, setup_path, SetupProbe::Read(source), true, true).len() == 0
            <==> !is_bare_quote(source@),
        is_bare_quote(source@) ==> file_problems(
            recipe_path,
            m,
            setup_path,
            SetupProbe::Read(source),
            true,
            true,
        ) == seq![(setup_path, bare_quote_message())],
        file_problems(recipe_path, m, setup_path, SetupProbe::Read(source), true, false).len() == 0,
{
    let empty = Seq::<(Seq<char>, Seq<char>)>::empty();
    assert(empty + empty =~= empty);
    assert(seq![(setup_path, bare_quote_message())] + empty =~= seq![(setup_path, bare_quote_message())]);
}

/// First step: judges what was read from `recipe.toml` (its text, or why
/// it could not be read). Returns the manifest when the text parses and its
/// setup and purpose paths are safe; those are the files to look at next.
/// Otherwise returns the problems, all attributed to `recipe_path`.
pub fn lint_recipe_manifest(recipe_path: &str, read: Result<String, String>) -> (r: Result<
    RecipeManifest,
    Vec<Diagnostic>,
>)
    ensures
        match read {
            Err(e) => r matches Err(v) && diags(v@) == seq![
                (recipe_path@, unreadable_recipe_message(e@)),
            ],
            Ok(t) => match recipe_parse(t@) {
                None => r matches Err(v) && v@.len() == 1 && v@[0].path@ == recipe_path@,
                Some(m) => if path_problem(m.setup) is None && path_problem(m.purpose) is None {
                    r matches Ok(mm) && mm@ == m
                } else {
                    r matches Err(v) && diags(v@) == manifest_problems(recipe_path@, m)
                },
            },
        },
{
    let t = match read {
        Err(e) => {
            let mut m = text("cannot read recipe.toml: ");
            append_str(&mut m, e.as_str());
            let d = Diagnostic::new(text(recipe_path), m);
            let mut v: Vec<Diagnostic> = Vec::new();
            v.push(d);
            assert(diags(v@) =~= seq![(recipe_path@, unreadable_recipe_message(e@))]);
            return Err(v);
        },
        Ok(t) => t,
    };
    let manifest = match parse_recipe(t.as_str()) {
        Err(err) => {
            let mut v: Vec<Diagnostic> = Vec::new();
            v.push(Diagnostic::new(text(recipe_path), err));
            return Err(v);
        },
        Ok(m) => m,
    };
    match manifest.validate_for_dir() {
        Ok(()) => Ok(manifest),
        Err(errors) => {
            let ghost msgs = errors@.map_values(|s: String| s@);
            let mut v: Vec<Diagnostic> = Vec::new();
            let mut i: usize = 0;
            while i < errors.len()
                invariant
                    i <= errors@.len(),
                    msgs == errors@.map_values(|s: String| s@),
                    diags(v@) == msgs.take(i as int).map_values(
                        |msg: Seq<char>| (recipe_path@, msg),
                    ),
                decreases errors@.len() - i,
            {
                let ghost before = v@;
                v.push(Diagnostic::new(text(recipe_path), errors[i].clone()));
                i += 1;
                assert(diags(v@) =~= msgs.take(i as int).map_values(
                    |msg: Seq<char>| (recipe_path@, msg),
                )) by {
                    assert(diags(v@) =~= diags(before).push((recipe_path@, errors@[i - 1]@)));
                }
            }
            assert(msgs.take(i as int) =~= msgs);
            Err(v)
        },
    }
}

/// Second step: judges what was found of the setup and purpose files of a
/// manifest that passed the first step. A missing setup or purpose file is
/// reported against `recipe.toml`; under the strict gate a setup that is a
/// bare quote, or that could not be read, is reported against the setup
/// file itself.
pub fn lint_recipe_files(
    recipe_path: &str,
    manifest: &RecipeManifest,
    setup_path: &str,
    setup: SetupProbe,
    purpose_is_file: bool,
    strict_no_quote: bool,
) -> (r: Result<(), Vec<Diagnostic>>)
    ensures
        r is Ok <==> file_problems(
            recipe_path@,
            manifest@,
            setup_path@,
            setup,
            purpose_is_file,
            strict_no_quote,
        ).len() == 0,
        r matches Err(v) ==> diags(v@) == file_problems(
            recipe_path@,
            manifest@,
            setup_path@,
            setup,
            purpose_is_file,
            strict_no_quote,
        ),
{
    let ghost want = file_problems(
        recipe_path@,
        manifest@,
        setup_path@,
        setup,
        purpose_is_file,
        strict_no_quote,
    );
    let mut v: Vec<Diagnostic> = Vec::new();
    match &setup {
        SetupProbe::Missing => {
            v.push(Diagnostic::new(
                text(recipe_path),
                concat3("setup file `", manifest.setup.as_str(), "` does not exist"),
            ));
        },
        SetupProbe::Present => {},
        SetupProbe::Read(t) => {
            if strict_no_quote && setup_is_bare_quote(t.as_str()) {
                v.push(Diagnostic::new(
                    text(setup_path),
                    text(
                        "recipe setup must not be a bare quote; use an operation, codec form, or read-construct",
                    ),
                ));
            }
        },
        SetupProbe::Unreadable(e) => {
            if strict_no_quote {
                let mut m = concat3("cannot read setup file `", manifest.setup.as_str(), "`: ");
                append_str(&mut m, e.as_str());
                v.push(Diagnostic::new(text(setup_path), m));
            }
        },
    }
    let ghost mid = v@;
    if !purpose_is_file {
        v.push(Diagnostic::new(
            text(recipe_path),
            concat3("purpose file `", manifest.purpose.as_str(), "` does not exist"),
        ));
    }
    assert(diags(v@) =~= want);
    if v.len() == 0 {
        Ok(())
    } else {
        Err(v)
    }
}

} // verus!
