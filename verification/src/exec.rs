//! The shell tool's safety guard: before any command reaches a shell, it
//! must pass the allow-list gate, the dangerous-pattern deny list, and
//! the path checks. The spawning itself is the outer shell's; so is
//! resolving symbolic links, which happens before the literal path check
//! here.

use vstd::prelude::*;
use crate::text::{contains_seq, lower_of, lowercase, chars_of, chars_eq, own_str, concat_str};

verus! {

/// Whether a regular expression (compiled fresh from its source text)
/// matches the text; an invalid pattern matches nothing. The result
/// depends on the pattern and the text alone.
pub uninterp spec fn regex_match_of(pattern: Seq<char>, text: Seq<char>) -> bool;

/// Relies on regex::Regex::new and Regex::is_match: compiling the pattern
/// and testing the text against it.
#[verifier::external_body]
fn regex_is_match(pattern: &str, text: &str) -> (r: bool)
    ensures
        r == regex_match_of(pattern@, text@),
{
    match regex::Regex::new(pattern) {
        Ok(re) => re.is_match(text),
        Err(_) => false,
    }
}

/// Whether a character is whitespace in the Unicode sense; depends on the
/// character alone.
pub uninterp spec fn white_of(c: char) -> bool;

/// Relies on char::is_whitespace: a pure character classification.
#[verifier::external_body]
fn char_is_white(c: char) -> (r: bool)
    ensures
        r == white_of(c),
{
    c.is_whitespace()
}

/// A character that separates the leading program token.
pub open spec fn sep_char(c: char) -> bool {
    white_of(c) || c == ';' || c == '|' || c == '&'
}

/// First position at or after `i` that does not hold a separator.
pub open spec fn skip_seps(s: Seq<char>, i: int) -> int
    decreases s.len() - i when 0 <= i <= s.len()
{
    if i < s.len() && sep_char(s[i]) {
        skip_seps(s, i + 1)
    } else {
        i
    }
}

/// End of the separator-free run starting at `i`.
pub open spec fn token_run(s: Seq<char>, i: int) -> int
    decreases s.len() - i when 0 <= i <= s.len()
{
    if i < s.len() && !sep_char(s[i]) {
        token_run(s, i + 1)
    } else {
        i
    }
}

/// The first program-like token of the command (empty if none).
pub open spec fn first_token(s: Seq<char>) -> Seq<char> {
    let a = skip_seps(s, 0);
    if 0 <= a <= s.len() {
        let b = token_run(s, a);
        if a <= b <= s.len() {
            s.subrange(a, b)
        } else {
            Seq::<char>::empty()
        }
    } else {
        Seq::<char>::empty()
    }
}

/// The token with everything up to its last `/` removed.
pub open spec fn base_from(s: Seq<char>, i: int) -> Seq<char>
    decreases i when 0 <= i <= s.len()
{
    if i > 0 && 0 < i <= s.len() {
        if s[i - 1] == '/' {
            s.subrange(i, s.len() as int)
        } else {
            base_from(s, i - 1)
        }
    } else {
        s
    }
}

pub open spec fn basename(s: Seq<char>) -> Seq<char> {
    base_from(s, s.len() as int)
}

/// First position at or after `i` that does not hold whitespace.
pub open spec fn skip_white(s: Seq<char>, i: int) -> int
    decreases s.len() - i when 0 <= i <= s.len()
{
    if i < s.len() && white_of(s[i]) {
        skip_white(s, i + 1)
    } else {
        i
    }
}

/// End of the whitespace-free run starting at `i`.
pub open spec fn wtoken_end(s: Seq<char>, i: int) -> int
    decreases s.len() - i when 0 <= i <= s.len()
{
    if i < s.len() && !white_of(s[i]) {
        wtoken_end(s, i + 1)
    } else {
        i
    }
}

/// Whether a token holds an `=` (an environment assignment).
pub open spec fn has_eq(t: Seq<char>) -> bool {
    exists|i: int| 0 <= i < t.len() && t[i] == '='
}

/// The first whitespace-separated token from `i` on without an `=`.
pub open spec fn first_no_eq_token(s: Seq<char>, i: int) -> Option<Seq<char>>
    decreases s.len() - i when 0 <= i <= s.len()
{
    let a = skip_white(s, i);
    if !(i <= a < s.len()) {
        None
    } else {
        let b0 = wtoken_end(s, a);
        let b = if a < b0 <= s.len() {
            b0
        } else {
            a + 1
        };
        let t = s.subrange(a, b);
        if !has_eq(t) {
            Some(t)
        } else {
            first_no_eq_token(s, b)
        }
    }
}

/// The program the command invokes: its first token, except that a
/// leading environment assignment (a token with `=`) is skipped in
/// favour of the first whitespace-separated token without one.
pub open spec fn program_of(command: Seq<char>) -> Seq<char> {
    let ft = first_token(command);
    if has_eq(ft) {
        match first_no_eq_token(command, 0) {
            Some(t) => t,
            None => ft,
        }
    } else {
        ft
    }
}

/// Whether the allow list admits the command's program: the program (or
/// its basename) must equal an allowed entry.
pub open spec fn allow_admits(allowed: Seq<Seq<char>>, command: Seq<char>) -> bool {
    let program = program_of(command);
    let base = basename(program);
    exists|i: int| 0 <= i < allowed.len() && (allowed[i] == program || allowed[i] == base)
}

/// A character that continues a path-like token.
pub open spec fn path_char(c: char) -> bool {
    !white_of(c) && c != '"' && c != '\u{27}'
}

/// End of the path-like run starting at `i`.
pub open spec fn ptoken_end(s: Seq<char>, i: int) -> int
    decreases s.len() - i when 0 <= i <= s.len()
{
    if i < s.len() && path_char(s[i]) {
        ptoken_end(s, i + 1)
    } else {
        i
    }
}

/// Whether a path-like token lies under a base path, component-wise.
pub open spec fn path_within(t: Seq<char>, base: Seq<char>) -> bool {
    t == base || (t.len() > base.len() && t.subrange(0, base.len() as int) == base && t[base.len() as int] == '/')
}

/// Whether some slash-started path-like token of the command (the tokens
/// scanned left to right, without overlap) escapes the base directory.
pub open spec fn escapes_dir(s: Seq<char>, base: Seq<char>, i: int) -> bool
    decreases s.len() - i when 0 <= i <= s.len()
{
    if !(0 <= i < s.len()) {
        false
    } else if s[i] == '/' {
        let e0 = ptoken_end(s, i);
        let e = if i < e0 <= s.len() {
            e0
        } else {
            i + 1
        };
        !path_within(s.subrange(i, e), base) || escapes_dir(s, base, e)
    } else {
        escapes_dir(s, base, i + 1)
    }
}

/// The first forbidden path (scanning the command's slash-started tokens
/// left to right, then the forbidden list in order) that a token lies
/// under, if any.
pub open spec fn forbidden_hit(s: Seq<char>, fps: Seq<Seq<char>>, i: int) -> Option<Seq<char>>
    decreases s.len() - i when 0 <= i <= s.len()
{
    if !(0 <= i < s.len()) {
        None
    } else if s[i] == '/' {
        let e0 = ptoken_end(s, i);
        let e = if i < e0 <= s.len() {
            e0
        } else {
            i + 1
        };
        match first_fp(s.subrange(i, e), fps, 0) {
            Some(fp) => Some(fp),
            None => forbidden_hit(s, fps, e),
        }
    } else {
        forbidden_hit(s, fps, i + 1)
    }
}

/// The first listed forbidden path the token lies under, if any.
pub open spec fn first_fp(t: Seq<char>, fps: Seq<Seq<char>>, j: int) -> Option<Seq<char>>
    decreases fps.len() - j when 0 <= j <= fps.len()
{
    if !(0 <= j < fps.len()) {
        None
    } else if path_within(t, fps[j]) {
        Some(fps[j])
    } else {
        first_fp(t, fps, j + 1)
    }
}

/// The shell execution tool: a working directory and its safety rails.
#[derive(Debug, Clone)]
pub struct ExecTool {
    pub working_dir: String,
    pub timeout_secs: u64,
    pub deny_patterns: Vec<String>,
    pub restrict_to_workspace: bool,
    pub allowed_commands: Vec<String>,
    pub forbidden_paths: Vec<String>,
}

pub open spec fn view_strs(v: Seq<String>) -> Seq<Seq<char>> {
    Seq::new(v.len(), |i: int| v[i]@)
}

/// Why a command is refused, if it is: the checks run in a fixed order
/// and the first refusal wins.
pub open spec fn guard_spec(t: ExecTool, command: Seq<char>, cwd: Seq<char>) -> Option<Seq<char>> {
    if contains_seq(command, seq!['\u{0}']) || contains_seq(cwd, seq!['\u{0}']) {
        Some("Command blocked: null byte detected"@)
    } else if view_strs(t.allowed_commands@).len() > 0 && !allow_admits(
        view_strs(t.allowed_commands@),
        command,
    ) {
        Some(
            "Command blocked: '"@ + basename(program_of(command))
                + "' is not in the allowed commands list"@,
        )
    } else if exists|i: int|
        0 <= i < t.deny_patterns@.len() && regex_match_of(
            #[trigger] t.deny_patterns@[i]@,
            lower_of(command),
        ) {
        Some("Command blocked by safety guard (dangerous pattern detected)"@)
    } else if t.restrict_to_workspace && (contains_seq(command, "../"@) || contains_seq(
        command,
        "..\\"@,
    )) {
        Some("Command blocked by safety guard (path traversal detected)"@)
    } else if t.restrict_to_workspace && escapes_dir(command, cwd, 0) {
        Some("Command blocked by safety guard (path outside working dir)"@)
    } else {
        match forbidden_hit(command, view_strs(t.forbidden_paths@), 0) {
            Some(fp) => Some("Command blocked: accesses forbidden path '"@ + fp + "'"@),
            None => None,
        }
    }
}

impl ExecTool {
    /// A shell tool over a working directory, with the standard deny
    /// patterns and a one-minute timeout.
    pub fn new(
        working_dir: String,
        restrict: bool,
        allowed_commands: Vec<String>,
        forbidden_paths: Vec<String>,
    ) -> (r: ExecTool)
        ensures
            r.working_dir@ == working_dir@,
            r.timeout_secs == 60,
            r.restrict_to_workspace == restrict,
            r.allowed_commands@ == allowed_commands@,
            r.forbidden_paths@ == forbidden_paths@,
            r.deny_patterns@.len() == 8,
    {
        let mut deny_patterns: Vec<String> = Vec::new();
        deny_patterns.push(own_str("\\brm\\s+-[rf]{1,2}\\b"));
        deny_patterns.push(own_str("\\bdel\\s+/[fq]\\b"));
        deny_patterns.push(own_str("\\brmdir\\s+/s\\b"));
        deny_patterns.push(own_str("\\b(format|mkfs|diskpart)\\b\\s"));
        deny_patterns.push(own_str("\\bdd\\s+if="));
        deny_patterns.push(own_str(">\\s*/dev/sd[a-z]\\b"));
        deny_patterns.push(own_str("\\b(shutdown|reboot|poweroff)\\b"));
        deny_patterns.push(own_str(":\\(\\)\\s*\\{.*\\};\\s*:"));
        ExecTool {
            working_dir,
            timeout_secs: 60,
            deny_patterns,
            restrict_to_workspace: restrict,
            allowed_commands,
            forbidden_paths,
        }
    }

    /// Decide whether a command may run: `None` admits it, `Some` carries
    /// the refusal. The checks run in order — null bytes, the allow list,
    /// the dangerous-pattern deny list, then path traversal under
    /// workspace restriction.
    #[verifier::loop_isolation(false)]
    pub fn guard_command(&self, command: &str, cwd: &str) -> (r: Option<String>)
        ensures
            (r matches Some(e) ==> guard_spec(*self, command@, cwd@) == Some(e@)),
            (r is None ==> guard_spec(*self, command@, cwd@) is None),
    {
        let cv = chars_of(command);
        let wv = chars_of(cwd);
        let mut nul: Vec<char> = Vec::new();
        nul.push('\u{0}');
        proof {
            assert(nul@ =~= seq!['\u{0}']);
        }
        if crate::text::contains_chars(&cv, &nul) || crate::text::contains_chars(&wv, &nul) {
            return Some(own_str("Command blocked: null byte detected"));
        }
        if self.allowed_commands.len() > 0 {
            let program = exec_program(&cv);
            let base = exec_basename(&program);
            let ghost av = view_strs(self.allowed_commands@);
            let mut n: usize = 0;
            let mut hit = false;
            while n < self.allowed_commands.len() && !hit
                invariant
                    n <= self.allowed_commands@.len(),
                    hit ==> allow_admits(av, command@),
                    !hit ==> forall|i: int|
                        0 <= i < n ==> !(av[i] == program_of(command@) || av[i] == basename(
                            program_of(command@),
                        )),
                decreases self.allowed_commands@.len() - n, (if hit { 0int } else { 1int }),
            {
                let entry = chars_of(self.allowed_commands[n].as_str());
                if chars_eq(&entry, &program) || chars_eq(&entry, &base) {
                    proof {
                        assert(av[n as int] == entry@);
                        assert(program@ == program_of(command@));
                        assert(base@ == basename(program_of(command@)));
                    }
                    hit = true;
                } else {
                    n += 1;
                }
            }
            if !hit {
                let head = concat_str("Command blocked: '", crate::text::string_from_chars(
                    &base,
                ).as_str());
                return Some(concat_str(head.as_str(), "' is not in the allowed commands list"));
            }
        }
        let lowered = lowercase(command);
        let ghost dv = self.deny_patterns@;
        let mut n: usize = 0;
        while n < self.deny_patterns.len()
            invariant
                n <= self.deny_patterns@.len(),
                dv == self.deny_patterns@,
                forall|i: int| 0 <= i < n ==> !regex_match_of(#[trigger] dv[i]@, lower_of(command@)),
            decreases self.deny_patterns@.len() - n,
        {
            if regex_is_match(self.deny_patterns[n].as_str(), lowered.as_str()) {
                return Some(
                    own_str("Command blocked by safety guard (dangerous pattern detected)"),
                );
            }
            n += 1;
        }
        if self.restrict_to_workspace {
            if crate::text::str_contains(command, "../") || crate::text::str_contains(
                command,
                "..\\",
            ) {
                return Some(own_str("Command blocked by safety guard (path traversal detected)"));
            }
            if exec_escapes(&cv, &wv) {
                return Some(own_str("Command blocked by safety guard (path outside working dir)"));
            }
        }
        match exec_forbidden(&cv, &self.forbidden_paths) {
            Some(fp) => {
                let head = concat_str("Command blocked: accesses forbidden path '", fp.as_str());
                Some(concat_str(head.as_str(), "'"))
            },
            None => None,
        }
    }
}


fn exec_has_eq(t: &Vec<char>) -> (r: bool)
    ensures
        r == has_eq(t@),
{
    let mut k: usize = 0;
    while k < t.len()
        invariant
            k <= t@.len(),
            forall|i: int| 0 <= i < k ==> t@[i] != '=',
        decreases t@.len() - k,
    {
        if t[k] == '=' {
            return true;
        }
        k += 1;
    }
    false
}

/// The program the command invokes, with a leading environment
/// assignment skipped.
#[verifier::loop_isolation(false)]
fn exec_program(cv: &Vec<char>) -> (r: Vec<char>)
    ensures
        r@ == program_of(cv@),
{
    let ft = exec_first_token(cv);
    if !exec_has_eq(&ft) {
        return ft;
    }
    let n = cv.len();
    let mut i: usize = 0;
    loop
        invariant
            i <= n,
            first_no_eq_token(cv@, 0) == first_no_eq_token(cv@, i as int),
        decreases n - i,
    {
        let mut a = i;
        while a < n && char_is_white(cv[a])
            invariant
                i <= a <= n,
                skip_white(cv@, i as int) == skip_white(cv@, a as int),
            decreases n - a,
        {
            a += 1;
        }
        proof {
            assert(skip_white(cv@, i as int) == a as int);
        }
        if a >= n {
            return ft;
        }
        let mut b = a + 1;
        while b < n && !char_is_white(cv[b])
            invariant
                a < b <= n,
                wtoken_end(cv@, a as int) == wtoken_end(cv@, b as int),
            decreases n - b,
        {
            b += 1;
        }
        proof {
            assert(wtoken_end(cv@, a as int) == b as int);
        }
        let t = crate::json::copy_range(cv, a, b);
        if !exec_has_eq(&t) {
            return t;
        }
        i = b;
    }
}

fn path_char_exec(c: char) -> (r: bool)
    ensures
        r == path_char(c),
{
    !char_is_white(c) && c != '"' && c != '\u{27}'
}

fn exec_path_within(t: &Vec<char>, base: &Vec<char>) -> (r: bool)
    ensures
        r == path_within(t@, base@),
{
    if chars_eq(t, base) {
        true
    } else if t.len() > base.len() && crate::text::starts_with_chars(t, base) {
        t[base.len()] == '/'
    } else {
        false
    }
}

/// Scan the command's path-like tokens and find the end of one; a token
/// is never empty (its end lies past its start).
fn exec_ptoken_end(cv: &Vec<char>, i: usize) -> (r: usize)
    requires
        i < cv@.len(),
    ensures
        r as int == (if i < ptoken_end(cv@, i as int) <= cv@.len() {
            ptoken_end(cv@, i as int)
        } else {
            i as int + 1
        }),
        i < r <= cv@.len(),
{
    let n = cv.len();
    let mut e = i;
    while e < n && path_char_exec(cv[e])
        invariant
            n == cv@.len(),
            i <= e <= n,
            ptoken_end(cv@, i as int) == ptoken_end(cv@, e as int),
        decreases n - e,
    {
        e += 1;
    }
    proof {
        assert(ptoken_end(cv@, i as int) == e as int);
    }
    if e <= i {
        i + 1
    } else {
        e
    }
}

/// Whether some slash-started token escapes the base directory.
#[verifier::loop_isolation(false)]
fn exec_escapes(cv: &Vec<char>, base: &Vec<char>) -> (r: bool)
    ensures
        r == escapes_dir(cv@, base@, 0),
{
    let n = cv.len();
    let mut i: usize = 0;
    loop
        invariant
            i <= n,
            escapes_dir(cv@, base@, 0) == escapes_dir(cv@, base@, i as int),
        decreases n - i,
    {
        if i >= n {
            return false;
        }
        if cv[i] == '/' {
            let e = exec_ptoken_end(cv, i);
            let t = crate::json::copy_range(cv, i, e);
            if !exec_path_within(&t, base) {
                return true;
            }
            i = e;
        } else {
            i += 1;
        }
    }
}

/// The first forbidden path one of the command's slash-started tokens
/// lies under, if any.
#[verifier::loop_isolation(false)]
fn exec_forbidden(cv: &Vec<char>, fps: &Vec<String>) -> (r: Option<String>)
    ensures
        (r matches Some(fp) ==> forbidden_hit(cv@, view_strs(fps@), 0) == Some(fp@)),
        (r is None ==> forbidden_hit(cv@, view_strs(fps@), 0) is None),
{
    let ghost fv = view_strs(fps@);
    let n = cv.len();
    let mut i: usize = 0;
    loop
        invariant
            i <= n,
            forbidden_hit(cv@, fv, 0) == forbidden_hit(cv@, fv, i as int),
        decreases n - i,
    {
        if i >= n {
            return None;
        }
        if cv[i] == '/' {
            let e = exec_ptoken_end(cv, i);
            let t = crate::json::copy_range(cv, i, e);
            let mut j: usize = 0;
            while j < fps.len()
                invariant
                    j <= fps@.len(),
                    t@ == cv@.subrange(i as int, e as int),
                    first_fp(t@, fv, 0) == first_fp(t@, fv, j as int),
                decreases fps@.len() - j,
            {
                let fpv = chars_of(fps[j].as_str());
                if exec_path_within(&t, &fpv) {
                    proof {
                        assert(first_fp(t@, fv, j as int) == Some(fv[j as int]));
                    }
                    return Some(fps[j].clone());
                }
                j += 1;
            }
            i = e;
        } else {
            i += 1;
        }
    }
}

/// The first program-like token of a command.
fn exec_first_token(cv: &Vec<char>) -> (r: Vec<char>)
    ensures
        r@ == first_token(cv@),
{
    let n = cv.len();
    let mut a: usize = 0;
    while a < n && sep_exec(cv[a])
        invariant
            n == cv@.len(),
            a <= n,
            skip_seps(cv@, 0) == skip_seps(cv@, a as int),
        decreases n - a,
    {
        a += 1;
    }
    proof {
        assert(skip_seps(cv@, 0) == a as int);
    }
    let mut b: usize = a;
    while b < n && !sep_exec(cv[b])
        invariant
            n == cv@.len(),
            a <= b <= n,
            token_run(cv@, a as int) == token_run(cv@, b as int),
        decreases n - b,
    {
        b += 1;
    }
    proof {
        assert(token_run(cv@, a as int) == b as int);
    }
    crate::json::copy_range(cv, a, b)
}

fn sep_exec(c: char) -> (r: bool)
    ensures
        r == sep_char(c),
{
    char_is_white(c) || c == ';' || c == '|' || c == '&'
}

/// The basename of a program token: everything after its last `/`.
fn exec_basename(pv: &Vec<char>) -> (r: Vec<char>)
    ensures
        r@ == basename(pv@),
{
    let n = pv.len();
    let mut i: usize = n;
    while i > 0 && pv[i - 1] != '/'
        invariant
            n == pv@.len(),
            i <= n,
            base_from(pv@, n as int) == base_from(pv@, i as int),
        decreases i,
    {
        i -= 1;
    }
    proof {
        if i > 0 {
            assert(base_from(pv@, i as int) == pv@.subrange(i as int, pv@.len() as int));
        } else {
            assert(base_from(pv@, 0) == pv@);
            assert(pv@.subrange(0, pv@.len() as int) =~= pv@);
        }
    }
    crate::json::copy_range(pv, i, n)
}

} // verus!
