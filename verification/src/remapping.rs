//! Import remappings: an alias bound to a project-relative filesystem path.

use vstd::prelude::*;
use vstd::string::*;
use crate::pathseg::{path_wf, ends_with};

verus! {

/// A remapping whose alias and destination are segment paths, as the
/// pipeline itself creates them: an optional scope context, the aliased
/// import prefix, and the path it is bound to.
#[derive(Debug, Clone)]
pub struct Remapping {
    /// Scope the remapping applies under, if any.
    pub context: Option<String>,
    /// The aliased import prefix, as path segments.
    pub name: Vec<String>,
    /// The bound path, relative to the project root, as path segments.
    pub path: Vec<String>,
}

/// A remapping already rendered flat, as it is found in an existing
/// project's configuration: `name` and `path` are `/`-joined strings and
/// `path` may still be absolute.
#[derive(Debug, Clone)]
pub struct RawRemapping {
    /// Scope the remapping applies under, if any.
    pub context: Option<String>,
    /// The aliased import prefix.
    pub name: String,
    /// The bound path, possibly absolute.
    pub path: String,
}

/// Well-formedness of a segment-level remapping: both sides are nonempty
/// well-formed segment paths.
pub open spec fn remapping_wf(r: Remapping) -> bool {
    path_wf(r.name.deep_view()) && path_wf(r.path.deep_view())
}

/// Whether the canonical rendering of a remapping gets a trailing `/`:
/// it does unless it already ends with one or it ends in `.sol`.
pub open spec fn wants_trailing_slash(s: Seq<char>) -> bool {
    &&& !(s.len() >= 1 && s.subrange(s.len() - 1, s.len() as int) == "/"@)
    &&& !(s.len() >= 4 && s.subrange(s.len() - 4, s.len() as int) == ".sol"@)
}

/// The canonical `[context:]name=path` rendering, with the trailing `/`
/// appended when `wants_trailing_slash` says so.
pub open spec fn render_parts(ctx: Option<Seq<char>>, name: Seq<char>, path: Seq<char>) -> Seq<
    char,
> {
    let base = (match ctx {
        Some(c) => c + seq![':'],
        None => Seq::<char>::empty(),
    }) + name + seq!['='] + path;
    if wants_trailing_slash(base) {
        base.push('/')
    } else {
        base
    }
}

/// Renders `[context:]name=path` with the trailing-slash rule.
pub fn render_remapping(context: &Option<String>, name: &str, path: &str) -> (r: String)
    ensures
        r@ == render_parts(
            match context {
                Some(c) => Some(c@),
                None => None,
            },
            name@,
            path@,
        ),
{
    let mut s = String::new();
    match context {
        Some(c) => {
            s.append(c.as_str());
            s.append(":");
            proof {
                reveal_strlit(":");
                assert(":"@ =~= seq![':']);
                assert(s@ =~= c@ + seq![':']);
            }
        },
        None => {},
    }
    s.append(name);
    s.append("=");
    proof {
        reveal_strlit("=");
        assert("="@ =~= seq!['=']);
    }
    s.append(path);
    let ghost base = s@;
    let ends_slash = ends_with(s.as_str(), "/");
    let ends_sol = ends_with(s.as_str(), ".sol");
    proof {
        reveal_strlit("/");
        reveal_strlit(".sol");
        assert(ends_slash == (base.len() >= 1 && base.subrange(
            base.len() - 1,
            base.len() as int,
        ) == "/"@));
        assert(ends_sol == (base.len() >= 4 && base.subrange(
            base.len() - 4,
            base.len() as int,
        ) == ".sol"@));
    }
    if !ends_slash && !ends_sol {
        s.append("/");
        proof {
            assert(s@ =~= base.push('/'));
        }
    }
    s
}

/// The project-root-relative form of a remapping path, as the compiler
/// toolchain's remapping support computes it from the path and the root.
pub uninterp spec fn relative_of(path: Seq<char>, root: Seq<char>) -> Seq<char>;

/// Relies on `foundry_compilers::artifacts::remappings::Remapping::into_relative`:
/// the root-relative form of a remapping path is a function of the path and
/// the root alone (a path under `root` has that prefix stripped, any other
/// path is kept as declared), so a relative path that cannot lie under an
/// absolute root is returned unchanged.
#[verifier::external_body]
pub(crate) fn relativize_path(path: &str, root: &str) -> (r: String)
    ensures
        r@ == relative_of(path@, root@),
        (root@.len() > 0 && root@[0] == '/' && (path@.len() == 0 || path@[0] != '/')) ==> r@
            == path@,
{
    let rm = foundry_compilers::artifacts::remappings::Remapping {
        context: None,
        name: String::new(),
        path: path.to_owned(),
    };
    let rel = rm.into_relative(std::path::Path::new(root));
    rel.path.original().to_string_lossy().into_owned()
}

} // verus!
