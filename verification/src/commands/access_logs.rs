//! The workspace scope of access log requests.
use vstd::prelude::*;
use crate::monitor::model::{opt_view, strs_view};
use crate::text::{all_ws, owned, push_text, trim_spec};

verus! {

/// The refusal of a workspace id that is not configured.
pub open spec fn workspace_not_found(id: Seq<char>) -> Seq<char> {
    "workspace not found: "@ + id
}

/// The workspace a request names: its trimmed id when it is not blank.
pub open spec fn named_workspace(requested: Option<Seq<char>>) -> Option<Seq<char>> {
    match requested {
        Some(r) => if all_ws(r) {
            None
        } else {
            Some(trim_spec(r))
        },
        None => None,
    }
}

/// Checks the workspace a request names against the configured ones: a
/// named workspace must exist; no name means none in particular.
pub fn checked_workspace_id(requested: Option<&str>, known: &Vec<String>) -> (r: Result<
    Option<String>,
    String,
>)
    ensures
        match named_workspace(
            match requested {
                Some(s) => Some(s@),
                None => None,
            },
        ) {
            None => r matches Ok(None),
            Some(id) => if strs_view(known@).contains(id) {
                r matches Ok(Some(s)) && s@ == id
            } else {
                r matches Err(m) && m@ == workspace_not_found(id)
            },
        },
{
    let id = match requested {
        Some(s) => {
            if crate::text::is_blank(s) {
                return Ok(None);
            }
            crate::text::trim_str(s)
        },
        None => {
            return Ok(None);
        },
    };
    let mut i: usize = 0;
    while i < known.len()
        invariant
            i <= known@.len(),
            requested is Some,
            !all_ws(requested.unwrap()@),
            id@ == trim_spec(requested.unwrap()@),
            forall|j: int| 0 <= j < i ==> known@[j]@ != id@,
        decreases known.len() - i,
    {
        if crate::text::same_text(known[i].as_str(), id.as_str()) {
            assert(strs_view(known@).len() == known@.len());
            assert(strs_view(known@)[i as int] == id@);
            assert(strs_view(known@).contains(id@));
            return Ok(Some(id));
        }
        i = i + 1;
    }
    proof {
        if strs_view(known@).contains(id@) {
            let j = choose|j: int| 0 <= j < strs_view(known@).len() && strs_view(known@)[j] == id@;
            assert(known@[j]@ == id@);
        }
    }
    let mut m = owned("workspace not found: ");
    push_text(&mut m, id.as_str());
    Err(m)
}

/// The workspaces an access log query scans: the one it names, or every
/// configured workspace.
pub fn query_workspace_ids(requested: Option<&str>, known: &Vec<String>) -> (r: Result<
    Vec<String>,
    String,
>)
    ensures
        match named_workspace(
            match requested {
                Some(s) => Some(s@),
                None => None,
            },
        ) {
            None => r matches Ok(v) && strs_view(v@) == strs_view(known@),
            Some(id) => if strs_view(known@).contains(id) {
                r matches Ok(v) && strs_view(v@) == seq![id]
            } else {
                r matches Err(m) && m@ == workspace_not_found(id)
            },
        },
{
    match checked_workspace_id(requested, known) {
        Ok(Some(id)) => {
            let v = vec![id];
            assert(strs_view(v@) =~= seq![v@[0]@]);
            Ok(v)
        },
        Ok(None) => Ok(crate::monitor::model::copy_strs(known)),
        Err(m) => Err(m),
    }
}

/// The log directory a request may open: the root when it names no
/// workspace, else the directory of a configured workspace.
pub fn checked_access_log_directory(config_dir: &str, requested: Option<&str>, known: &Vec<String>) -> (r:
    Result<String, String>)
    ensures
        match named_workspace(
            match requested {
                Some(s) => Some(s@),
                None => None,
            },
        ) {
            None => r matches Ok(p) && p@ == crate::access_log::path_join(config_dir@, "logs"@),
            Some(id) => if !strs_view(known@).contains(id) {
                r matches Err(m) && m@ == workspace_not_found(id)
            } else if crate::access_log::valid_profile_id(id) {
                r matches Ok(p) && p@ == crate::access_log::path_join(
                    crate::access_log::path_join(config_dir@, "logs"@),
                    id,
                )
            } else {
                r matches Err(m) && m@ == crate::access_log::invalid_profile_message()
            },
        },
{
    let id = match checked_workspace_id(requested, known) {
        Ok(id) => id,
        Err(m) => {
            return Err(m);
        },
    };
    let dir = match &id {
        Some(i) => crate::access_log::access_log_directory(config_dir, Some(i.as_str())),
        None => crate::access_log::access_log_directory(config_dir, None),
    };
    match dir {
        Ok(p) => Ok(p),
        Err(e) => Err(owned(e)),
    }
}

} // verus!
