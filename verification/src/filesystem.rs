//! The filesystem tools' configuration and their path validation. The
//! reads and writes themselves are the outer shell's; deciding whether a
//! path may be touched at all is computed here, on the literal path text
//! (the shell resolves symbolic links before asking).

use vstd::prelude::*;
use crate::text::{own_str, chars_of, chars_eq, starts_with_chars, concat_str};

verus! {

/// Whether `path` lies inside `base`, component-wise: it is `base`
/// itself, or continues it across a separator.
pub open spec fn within_base(path: Seq<char>, base: Seq<char>) -> bool {
    ||| path == base
    ||| (path.len() > base.len() && path.subrange(0, base.len() as int) == base && path[base.len() as int]
        == '/')
}

/// What validating a path against a workspace yields: an empty workspace
/// admits everything; a relative path is rooted in the workspace; a
/// restricted absolute path must lie inside the workspace.
pub open spec fn validate_spec(path: Seq<char>, workspace: Seq<char>, restrict: bool) -> Result<
    Seq<char>,
    Seq<char>,
> {
    if workspace.len() == 0 {
        Ok(path)
    } else {
        let abs = if path.len() > 0 && path[0] == '/' {
            path
        } else {
            workspace + seq!['/'] + path
        };
        if restrict && !within_base(abs, workspace) {
            Err("access denied: path is outside the workspace"@)
        } else {
            Ok(abs)
        }
    }
}

/// Validate a path against the workspace boundary.
pub fn validate_path(path: &str, workspace: &str, restrict: bool) -> (r: Result<String, String>)
    ensures
        (r matches Ok(p) ==> validate_spec(path@, workspace@, restrict) == Ok::<
            Seq<char>,
            Seq<char>,
        >(p@)),
        (r matches Err(e) ==> validate_spec(path@, workspace@, restrict) == Err::<
            Seq<char>,
            Seq<char>,
        >(e@)),
{
    let pv = chars_of(path);
    let wv = chars_of(workspace);
    if wv.len() == 0 {
        return Ok(own_str(path));
    }
    let abs: Vec<char> = if pv.len() > 0 && pv[0] == '/' {
        pv
    } else {
        let mut a = wv.clone();
        proof {
            assert(a@ =~= workspace@);
        }
        a.push('/');
        proof {
            assert(a@ =~= workspace@ + seq!['/']);
        }
        crate::text::extend_chars(&mut a, path);
        proof {
            assert(a@ =~= workspace@ + seq!['/'] + path@);
        }
        a
    };
    let wv2 = chars_of(workspace);
    if restrict {
        let inside = if chars_eq(&abs, &wv2) {
            true
        } else if starts_with_chars(&abs, &wv2) && abs.len() > wv2.len() {
            abs[wv2.len()] == '/'
        } else {
            false
        };
        if !inside {
            return Err(own_str("access denied: path is outside the workspace"));
        }
    }
    Ok(crate::text::string_from_chars(&abs))
}

/// Reads a file's contents.
#[derive(Debug, Clone)]
pub struct ReadFileTool {
    pub workspace: String,
    pub restrict: bool,
}

impl ReadFileTool {
    pub fn new(workspace: String, restrict: bool) -> (r: ReadFileTool)
        ensures
            r.workspace@ == workspace@,
            r.restrict == restrict,
    {
        ReadFileTool { workspace, restrict }
    }

    pub fn name(&self) -> (r: &str)
        ensures
            r@ == "read_file"@,
    {
        "read_file"
    }
}

/// Writes content to a file.
#[derive(Debug, Clone)]
pub struct WriteFileTool {
    pub workspace: String,
    pub restrict: bool,
}

impl WriteFileTool {
    pub fn new(workspace: String, restrict: bool) -> (r: WriteFileTool)
        ensures
            r.workspace@ == workspace@,
            r.restrict == restrict,
    {
        WriteFileTool { workspace, restrict }
    }

    pub fn name(&self) -> (r: &str)
        ensures
            r@ == "write_file"@,
    {
        "write_file"
    }
}

/// Lists a directory.
#[derive(Debug, Clone)]
pub struct ListDirTool {
    pub workspace: String,
    pub restrict: bool,
}

impl ListDirTool {
    pub fn new(workspace: String, restrict: bool) -> (r: ListDirTool)
        ensures
            r.workspace@ == workspace@,
            r.restrict == restrict,
    {
        ListDirTool { workspace, restrict }
    }

    pub fn name(&self) -> (r: &str)
        ensures
            r@ == "list_dir"@,
    {
        "list_dir"
    }
}

/// Replaces one occurrence of a text in a file.
#[derive(Debug, Clone)]
pub struct EditFileTool {
    pub workspace: String,
    pub restrict: bool,
}

impl EditFileTool {
    pub fn new(workspace: String, restrict: bool) -> (r: EditFileTool)
        ensures
            r.workspace@ == workspace@,
            r.restrict == restrict,
    {
        EditFileTool { workspace, restrict }
    }

    pub fn name(&self) -> (r: &str)
        ensures
            r@ == "edit_file"@,
    {
        "edit_file"
    }
}

/// Appends content to a file.
#[derive(Debug, Clone)]
pub struct AppendFileTool {
    pub workspace: String,
    pub restrict: bool,
}

impl AppendFileTool {
    pub fn new(workspace: String, restrict: bool) -> (r: AppendFileTool)
        ensures
            r.workspace@ == workspace@,
            r.restrict == restrict,
    {
        AppendFileTool { workspace, restrict }
    }

    pub fn name(&self) -> (r: &str)
        ensures
            r@ == "append_file"@,
    {
        "append_file"
    }
}

} // verus!
