//! The literal-path guard on command arguments: an argument that names a
//! path outside the workspace, or climbs out of it with `../`, is external.
//! This inspects arguments only; it is no sandbox for an interpreter. Which
//! absolute paths lie outside is for the file system to say; this module
//! finds the paths to ask about.
use vstd::prelude::*;
use vstd::string::StringSliceAdditionalSpecFns;
use crate::text::{chars_of, occurs_at, split_on, string_of};
use crate::monitor::model::strs_view;
use vstd::utf8::encode_utf8;

verus! {

/// A path written absolutely on Unix (`/…`) or Windows (`C:/…`, after
/// backslashes became slashes), judged on its bytes.
pub open spec fn looks_absolute_spec(b: Seq<u8>) -> bool {
    (b.len() > 0 && b[0] == 0x2F) || (b.len() >= 3 && ((0x41 <= b[0] <= 0x5A) || (0x61 <= b[0]
        <= 0x7A)) && b[1] == 0x3A && b[2] == 0x2F)
}

/// Whether a path looks absolute.
pub fn looks_absolute(raw: &str) -> (r: bool)
    ensures
        r == looks_absolute_spec(raw.spec_bytes()),
{
    let b = raw.as_bytes();
    (b.len() > 0 && b[0] == 0x2F) || (b.len() >= 3 && ((0x41 <= b[0] && b[0] <= 0x5A) || (0x61
        <= b[0] && b[0] <= 0x7A)) && b[1] == 0x3A && b[2] == 0x2F)
}

/// The path tokens of an argument, as the regular expression
/// `"([^"]*)"|'([^']*)'|([^\s"'(),;=]+)` finds them, one per match: the text
/// inside double quotes, inside single quotes, or a bare run.
pub uninterp spec fn path_tokens(text: Seq<char>) -> Seq<Seq<char>>;

/// `regex::Regex::captures_iter` with the token expression; each match
/// gives its first participating group. The tokens are named by
/// [`path_tokens`].
#[verifier::external_body]
fn tokens_of(text: &str) -> (r: Vec<String>)
    ensures
        strs_view(r@) == path_tokens(text@),
{
    let re = regex::Regex::new(r#""([^"]*)"|'([^']*)'|([^\s"'(),;=]+)"#).unwrap();
    re.captures_iter(text).filter_map(|c| c.iter().skip(1).flatten().next()).map(|m| m.as_str().to_string()).collect()
}

/// `s` with every backslash written as a slash.
pub open spec fn slashed(s: Seq<char>) -> Seq<char> {
    s.map_values(|c: char| if c == '\\' { '/' } else { c })
}

/// `s` contains `../`.
pub open spec fn climbs_up(s: Seq<char>) -> bool {
    exists|i: int| 0 <= i && occurs_at(s, i, "../"@)
}

fn slash_copy(arg: &str) -> (r: Vec<char>)
    ensures
        r@ == slashed(arg@),
{
    let v = chars_of(arg);
    let mut w: Vec<char> = Vec::new();
    let mut i: usize = 0;
    while i < v.len()
        invariant
            i <= v@.len(),
            w@ == slashed(v@.subrange(0, i as int)),
        decreases v.len() - i,
    {
        let c = v[i];
        w.push(if c == '\\' { '/' } else { c });
        assert(slashed(v@.subrange(0, i + 1)) =~= slashed(v@.subrange(0, i as int)).push(
            if c == '\\' { '/' } else { c },
        ));
        i = i + 1;
    }
    assert(v@.subrange(0, i as int) =~= v@);
    w
}

fn has_climb(v: &Vec<char>) -> (r: bool)
    ensures
        r == climbs_up(v@),
{
    proof {
        reveal_strlit("../");
    }
    let mut i: usize = 0;
    while i < v.len()
        invariant
            i <= v@.len(),
            forall|j: int| 0 <= j < i ==> !occurs_at(v@, j, "../"@),
        decreases v.len() - i,
    {
        if crate::text::text_at(v.as_slice(), i, "../") {
            return true;
        }
        i = i + 1;
    }
    assert forall|j: int| 0 <= j implies !occurs_at(v@, j, "../"@) by {
        if j >= v@.len() {
        }
    }
    false
}

/// The tokens of `ts` that look absolute, in order.
pub open spec fn absolute_only(ts: Seq<Seq<char>>) -> Seq<Seq<char>>
    decreases ts.len(),
{
    if ts.len() == 0 {
        Seq::empty()
    } else {
        let prev = absolute_only(ts.drop_last());
        if looks_absolute_spec(encode_utf8(ts.last())) {
            prev.push(ts.last())
        } else {
            prev
        }
    }
}

/// What decides whether one argument names a path outside the workspace:
/// `None` when, written with slashes, it climbs up with `../` (it does,
/// whatever the file system holds); else the absolute paths it names, each
/// outside exactly when the file system puts it there: the whole argument
/// when it looks absolute, else its path tokens that do.
pub open spec fn argument_paths(arg: Seq<char>) -> Option<Seq<Seq<char>>> {
    let n = slashed(arg);
    if climbs_up(n) {
        None
    } else if looks_absolute_spec(encode_utf8(n)) {
        Some(seq![n])
    } else {
        Some(absolute_only(path_tokens(n)))
    }
}

/// The paths of each argument in turn, or `None` once one climbs up.
pub open spec fn external_paths(args: Seq<Seq<char>>) -> Option<Seq<Seq<char>>>
    decreases args.len(),
{
    if args.len() == 0 {
        Some(Seq::empty())
    } else {
        match (external_paths(args.drop_last()), argument_paths(args.last())) {
            (Some(a), Some(b)) => Some(a + b),
            _ => None,
        }
    }
}

/// The absolute paths one argument names, or `None` when it climbs up.
pub fn argument_paths_of(arg: &str) -> (r: Option<Vec<String>>)
    ensures
        match argument_paths(arg@) {
            None => r is None,
            Some(p) => r matches Some(v) && strs_view(v@) == p,
        },
{
    let w = slash_copy(arg);
    if has_climb(&w) {
        return None;
    }
    let normalized = string_of(w.as_slice());
    if looks_absolute(normalized.as_str()) {
        let mut one: Vec<String> = Vec::new();
        one.push(normalized);
        proof {
            assert(strs_view(one@) =~= seq![slashed(arg@)]);
        }
        return Some(one);
    }
    let tokens = tokens_of(normalized.as_str());
    let ghost ts = path_tokens(normalized@);
    let mut found: Vec<String> = Vec::new();
    let mut k: usize = 0;
    proof {
        assert(ts.take(0) =~= Seq::<Seq<char>>::empty());
        assert(strs_view(found@) =~= Seq::<Seq<char>>::empty());
    }
    while k < tokens.len()
        invariant
            k <= tokens@.len(),
            strs_view(tokens@) == ts,
            strs_view(found@) == absolute_only(ts.take(k as int)),
        decreases tokens.len() - k,
    {
        let t = tokens[k].as_str();
        proof {
            assert(ts.take(k + 1).drop_last() =~= ts.take(k as int));
            assert(ts.take(k + 1).last() == t@);
        }
        if looks_absolute(t) {
            let ghost before = found@;
            found.push(tokens[k].clone());
            proof {
                assert(strs_view(found@) =~= strs_view(before).push(t@));
            }
        }
        k = k + 1;
    }
    proof {
        assert(ts.take(k as int) =~= ts);
    }
    Some(found)
}

proof fn lemma_external_paths_prefix(args: Seq<Seq<char>>, i: int)
    requires
        0 <= i <= args.len(),
        external_paths(args.take(i)) is None,
    ensures
        external_paths(args) is None,
    decreases args.len() - i,
{
    if i < args.len() {
        assert(args.take(i + 1).drop_last() =~= args.take(i));
        lemma_external_paths_prefix(args, i + 1);
    } else {
        assert(args.take(i) =~= args);
    }
}

/// The literal-path guard's part that needs no file system: `None` when an
/// argument climbs up with `../`, and the arguments then name a path
/// outside the workspace; else every absolute path they name, argument after
/// argument, and they name one outside exactly when one of those lies
/// outside it (with no workspace, when there is any).
pub fn external_path_checks(args: &Vec<String>) -> (r: Option<Vec<String>>)
    ensures
        match external_paths(strs_view(args@)) {
            None => r is None,
            Some(p) => r matches Some(v) && strs_view(v@) == p,
        },
{
    let ghost all = strs_view(args@);
    let mut paths: Vec<String> = Vec::new();
    let mut i: usize = 0;
    proof {
        assert(all.take(0) =~= Seq::<Seq<char>>::empty());
        assert(strs_view(paths@) =~= Seq::<Seq<char>>::empty());
    }
    while i < args.len()
        invariant
            i <= args@.len(),
            all == strs_view(args@),
            external_paths(all.take(i as int)) == Some(strs_view(paths@)),
        decreases args.len() - i,
    {
        proof {
            assert(all.take(i + 1).drop_last() =~= all.take(i as int));
            assert(all.take(i + 1).last() == args@[i as int]@);
        }
        match argument_paths_of(args[i].as_str()) {
            None => {
                proof {
                    lemma_external_paths_prefix(all, i + 1);
                }
                return None;
            },
            Some(more) => {
                let ghost before = strs_view(paths@);
                let mut j: usize = 0;
                while j < more.len()
                    invariant
                        j <= more@.len(),
                        strs_view(paths@) == before + strs_view(more@).take(j as int),
                    decreases more.len() - j,
                {
                    let ghost p0 = strs_view(paths@);
                    paths.push(more[j].clone());
                    proof {
                        assert(strs_view(more@).take(j + 1) =~= strs_view(more@).take(j as int).push(
                            more@[j as int]@,
                        ));
                        assert(strs_view(paths@) =~= p0.push(more@[j as int]@));
                    }
                    j = j + 1;
                }
                proof {
                    assert(strs_view(more@).take(j as int) =~= strs_view(more@));
                }
            },
        }
        i = i + 1;
    }
    proof {
        assert(all.take(i as int) =~= all);
    }
    Some(paths)
}

/// A path with a `..` component (Unix rules: any `/`-separated piece that is
/// `..`).
pub open spec fn has_parent_component(raw: Seq<char>) -> bool {
    exists|k: int| 0 <= k < split_on(raw, '/').len() && #[trigger] split_on(raw, '/')[k] == ".."@
}

/// How a working directory argument is resolved.
#[derive(Clone, Copy, PartialEq, Eq, Structural, Debug)]
pub enum WorkdirKind {
    /// It climbs with `..`: refused as outside the workspace.
    Escapes,
    /// Relative: resolved against the workspace.
    Relative,
    /// Absolute: canonicalized and kept only inside the workspace.
    Absolute,
}

/// Classifies a working directory argument.
pub fn workdir_kind(raw: &str) -> (r: WorkdirKind)
    ensures
        has_parent_component(raw@) ==> r == WorkdirKind::Escapes,
        !has_parent_component(raw@) && raw@.len() > 0 && raw@[0] == '/' ==> r == WorkdirKind::Absolute,
        !has_parent_component(raw@) && !(raw@.len() > 0 && raw@[0] == '/') ==> r == WorkdirKind::Relative,
{
    proof {
        reveal_strlit("..");
    }
    let v = chars_of(raw);
    let parts = crate::text::split_chars(v.as_slice(), '/');
    let mut k: usize = 0;
    while k < parts.len()
        invariant
            k <= parts@.len(),
            crate::text::texts(parts@) == split_on(raw@, '/'),
            v@ == raw@,
            forall|j: int| 0 <= j < k ==> #[trigger] split_on(raw@, '/')[j] != ".."@,
        decreases parts.len() - k,
    {
        proof {
            reveal_strlit("..");
        }
        assert(crate::text::texts(parts@)[k as int] == parts@[k as int]@);
        let p = &parts[k];
        if p.len() == 2 && p[0] == '.' && p[1] == '.' {
            assert(p@ =~= ".."@);
            return WorkdirKind::Escapes;
        }
        proof {
            if p@.len() == 2 {
                assert(p@[0] != '.' || p@[1] != '.');
                assert(p@ != ".."@);
            }
        }
        k = k + 1;
    }
    if v.len() > 0 && v[0] == '/' {
        WorkdirKind::Absolute
    } else {
        WorkdirKind::Relative
    }
}

} // verus!
