//! The access rules: ignore rules in gitignore syntax, compiled once, that say
//! which paths no tool may touch.
use crate::error::ToolError;
use crate::text::{chars_of, lines_of, split_lines, string_of};
use ignore::gitignore::{Gitignore, GitignoreBuilder};
use vstd::prelude::*;

verus! {

#[verifier::external_type_specification]
#[verifier::external_body]
pub struct ExGitignoreBuilder(GitignoreBuilder);

#[verifier::external_type_specification]
#[verifier::external_body]
pub struct ExGitignore(Gitignore);

/// The root directory a builder was made with.
pub uninterp spec fn builder_root(b: GitignoreBuilder) -> Seq<char>;

/// The rule lines a builder took, in order.
pub uninterp spec fn builder_rules(b: GitignoreBuilder) -> Seq<Seq<char>>;

/// The root directory a compiled matcher matches relative to.
pub uninterp spec fn matcher_root(g: Gitignore) -> Seq<char>;

/// The rule lines a compiled matcher holds, in order.
pub uninterp spec fn matcher_rules(g: Gitignore) -> Seq<Seq<char>>;

/// Whether a line parses as a gitignore rule (comments and blank lines do).
pub uninterp spec fn rule_accepted(line: Seq<char>) -> bool;

/// Whether the rules, matched relative to `root`, ignore the file `path`:
/// the last rule that matches decides, and a negated rule lets the path through.
pub uninterp spec fn ignore_verdict(root: Seq<char>, rules: Seq<Seq<char>>, path: Seq<char>) -> bool;

/// Relies on `GitignoreBuilder::new`: an empty builder for `root`.
#[verifier::external_body]
fn new_builder(root: &str) -> (r: GitignoreBuilder)
    ensures
        builder_root(r) == root@,
        builder_rules(r) == Seq::<Seq<char>>::empty(),
{
    GitignoreBuilder::new(root)
}

/// Relies on `GitignoreBuilder::add_line`: a line that parses is kept, one that
/// fails leaves the builder as it was.
#[verifier::external_body]
fn add_rule(b: &mut GitignoreBuilder, line: &str) -> (r: bool)
    ensures
        r == rule_accepted(line@),
        builder_root(*final(b)) == builder_root(*old(b)),
        builder_rules(*final(b)) == if r {
            builder_rules(*old(b)).push(line@)
        } else {
            builder_rules(*old(b))
        },
{
    b.add_line(None, line).is_ok()
}

/// Whether a matcher can be compiled from the rule lines; this depends on
/// the lines alone.
pub uninterp spec fn rules_compile(rules: Seq<Seq<char>>) -> bool;

/// Relies on `GitignoreBuilder::build`: it succeeds or fails on the builder's
/// rules alone, and the matcher holds those rules.
#[verifier::external_body]
fn build_matcher(b: &GitignoreBuilder) -> (r: Option<Gitignore>)
    ensures
        r is Some <==> rules_compile(builder_rules(*b)),
        r matches Some(g) ==> matcher_root(g) == builder_root(*b) && matcher_rules(g)
            == builder_rules(*b),
{
    b.build().ok()
}

/// Relies on `Gitignore::matched` and `Match::is_ignore`, for a file path.
#[verifier::external_body]
fn matcher_ignores(g: &Gitignore, path: &str) -> (r: bool)
    ensures
        r == ignore_verdict(matcher_root(*g), matcher_rules(*g), path@),
{
    g.matched(std::path::Path::new(path), false).is_ignore()
}

/// The lines a builder keeps out of `lines`, in order.
pub open spec fn accepted_rules(lines: Seq<Seq<char>>) -> Seq<Seq<char>>
    decreases lines.len(),
{
    if lines.len() == 0 {
        lines
    } else if rule_accepted(lines.last()) {
        accepted_rules(lines.drop_last()).push(lines.last())
    } else {
        accepted_rules(lines.drop_last())
    }
}

/// A line without any byte order marks at its start.
pub open spec fn trim_bom(l: Seq<char>) -> Seq<char>
    decreases l.len(),
{
    if l.len() > 0 && l[0] == '\u{feff}' {
        trim_bom(l.drop_first())
    } else {
        l
    }
}

/// The rule lines of a rule file: its lines, the first without byte order marks.
pub open spec fn file_rules(content: Seq<char>) -> Seq<Seq<char>> {
    let ls = lines_of(content);
    if ls.len() == 0 {
        ls
    } else {
        ls.update(0, trim_bom(ls[0]))
    }
}

/// The rules installed when the project has no rule file of any kind.
pub open spec fn default_rules() -> Seq<Seq<char>> {
    seq!["**/.env"@, "**/.env.*"@, "**/secrets.*"@]
}

/// The contents of the rule files that exist; `None` for a file that does not.
pub struct RuleFiles {
    /// The user's global rule file.
    pub global: Option<String>,
    /// The project's own rule file.
    pub local: Option<String>,
    /// The project's version-control ignore file.
    pub fallback: Option<String>,
}

/// The contents of an optional file.
pub open spec fn content_of(f: Option<String>) -> Option<Seq<char>> {
    match f {
        Some(s) => Some(s@),
        None => None,
    }
}

/// The rule lines of an optional file; none for a missing one.
pub open spec fn optional_rules(f: Option<Seq<char>>) -> Seq<Seq<char>> {
    match f {
        Some(c) => file_rules(c),
        None => Seq::<Seq<char>>::empty(),
    }
}

/// Which lines make the effective rule set: the global file's, then the local
/// file's, or the fallback file's where there is no local file; the defaults
/// where no file exists at all.
pub open spec fn selected_rules(
    global: Option<Seq<char>>,
    local: Option<Seq<char>>,
    fallback: Option<Seq<char>>,
) -> Seq<Seq<char>> {
    if global is None && local is None && fallback is None {
        default_rules()
    } else if local is Some {
        optional_rules(global) + optional_rules(local)
    } else {
        optional_rules(global) + optional_rules(fallback)
    }
}

/// With a local rule file present, the fallback ignore file has no say: the
/// rules built with it decide every path exactly as the rules built without it,
/// so a pattern that only the fallback file holds ignores nothing.
pub proof fn lemma_local_rules_shadow_fallback(
    root: Seq<char>,
    global: Option<Seq<char>>,
    local: Seq<char>,
    fallback: Option<Seq<char>>,
    path: Seq<char>,
)
    ensures
        ignore_verdict(
            root,
            accepted_rules(selected_rules(global, Some(local), fallback)),
            path,
        ) == ignore_verdict(
            root,
            accepted_rules(selected_rules(global, Some(local), None)),
            path,
        ),
{
}

/// A compiled, read-only set of ignore rules.
pub struct AccessGate {
    matcher: Gitignore,
    explicit: bool,
}

impl AccessGate {
    /// The directory the rules match relative to.
    pub closed spec fn root(&self) -> Seq<char> {
        matcher_root(self.matcher)
    }

    /// The rule lines in force, in order.
    pub closed spec fn rules(&self) -> Seq<Seq<char>> {
        matcher_rules(self.matcher)
    }

    /// Whether the rules came from rule files rather than the defaults.
    pub closed spec fn explicit(&self) -> bool {
        self.explicit
    }

    /// Compiles `lines` relative to `root`; lines that do not parse are skipped.
    /// Fails only where the matcher cannot be compiled.
    pub fn from_lines(root: &str, lines: &Vec<String>) -> (r: Result<AccessGate, ToolError>)
        ensures
            r is Ok <==> rules_compile(accepted_rules(lines@.map_values(|l: String| l@))),
            r matches Ok(g) ==> g.root() == root@ && g.rules() == accepted_rules(
                lines@.map_values(|l: String| l@),
            ) && g.explicit(),
            r matches Err(e) ==> e is ExecutionError,
    {
        let ghost ls = lines@.map_values(|l: String| l@);
        let mut b = new_builder(root);
        let mut i: usize = 0;
        while i < lines.len()
            invariant
                i <= lines@.len(),
                ls == lines@.map_values(|l: String| l@),
                builder_root(b) == root@,
                builder_rules(b) == accepted_rules(ls.take(i as int)),
            decreases lines@.len() - i,
        {
            assert(ls.take(i + 1).drop_last() =~= ls.take(i as int));
            add_rule(&mut b, lines[i].as_str());
            i = i + 1;
        }
        assert(ls.take(i as int) =~= ls);
        match build_matcher(&b) {
            Some(g) => Ok(AccessGate { matcher: g, explicit: true }),
            None => Err(ToolError::ExecutionError(String::from_str("Failed to build ignore patterns"))),
        }
    }

    /// Builds the access rules for `root` from the rule files that exist, as
    /// `selected_rules` orders them.
    pub fn build(root: &str, files: &RuleFiles) -> (r: Result<AccessGate, ToolError>)
        ensures
            r is Ok <==> rules_compile(
                accepted_rules(
                    selected_rules(
                        content_of(files.global),
                        content_of(files.local),
                        content_of(files.fallback),
                    ),
                ),
            ),
            r matches Ok(g) ==> {
                &&& g.root() == root@
                &&& g.rules() == accepted_rules(
                    selected_rules(
                        content_of(files.global),
                        content_of(files.local),
                        content_of(files.fallback),
                    ),
                )
                &&& g.explicit() == (files.global is Some || files.local is Some
                    || files.fallback is Some)
            },
            r matches Err(e) ==> e is ExecutionError,
    {
        let ghost sel = selected_rules(
            content_of(files.global),
            content_of(files.local),
            content_of(files.fallback),
        );
        let mut lines: Vec<String> = Vec::new();
        let explicit = files.global.is_some() || files.local.is_some() || files.fallback.is_some();
        if !explicit {
            lines.push(String::from_str("**/.env"));
            lines.push(String::from_str("**/.env.*"));
            lines.push(String::from_str("**/secrets.*"));
            assert(lines@.map_values(|l: String| l@) =~= sel);
        } else {
            match &files.global {
                Some(c) => append_file_rules(&mut lines, c.as_str()),
                None => {},
            }
            match &files.local {
                Some(c) => append_file_rules(&mut lines, c.as_str()),
                None => match &files.fallback {
                    Some(c) => append_file_rules(&mut lines, c.as_str()),
                    None => {},
                },
            }
            assert(lines@.map_values(|l: String| l@) =~= sel);
        }
        match AccessGate::from_lines(root, &lines) {
            Ok(g) => Ok(AccessGate { matcher: g.matcher, explicit }),
            Err(e) => Err(e),
        }
    }

    /// Whether the rules were read from rule files.
    pub fn has_explicit_rules(&self) -> (r: bool)
        ensures
            r == self.explicit(),
    {
        self.explicit
    }

    /// Whether the rules exclude the file `path`.
    pub fn is_ignored(&self, path: &str) -> (r: bool)
        ensures
            r == ignore_verdict(self.root(), self.rules(), path@),
    {
        matcher_ignores(&self.matcher, path)
    }
}

/// `l` without byte order marks at its start.
fn trim_bom_exec(l: &[char]) -> (r: &[char])
    ensures
        r@ == trim_bom(l@),
    decreases l@.len(),
{
    if l.len() > 0 && l[0] == '\u{feff}' {
        let rest = vstd::slice::slice_subrange(l, 1, l.len());
        assert(rest@ =~= l@.drop_first());
        trim_bom_exec(rest)
    } else {
        l
    }
}

/// Appends the rule lines of the rule file `content` to `out`.
fn append_file_rules(out: &mut Vec<String>, content: &str)
    ensures
        final(out)@.map_values(|l: String| l@) == old(out)@.map_values(|l: String| l@)
            + file_rules(content@),
{
    let chars = chars_of(content);
    let ls = split_lines(chars.as_slice());
    let ghost fr = file_rules(content@);
    let ghost start = old(out)@.map_values(|l: String| l@);
    let mut i: usize = 0;
    while i < ls.len()
        invariant
            i <= ls@.len(),
            fr == file_rules(content@),
            ls@.len() == fr.len(),
            crate::text::views(ls@) == lines_of(content@),
            start == old(out)@.map_values(|l: String| l@),
            out@.map_values(|l: String| l@) =~= start + fr.take(i as int),
        decreases ls@.len() - i,
    {
        let line = if i == 0 {
            string_of(trim_bom_exec(ls[i].as_slice()))
        } else {
            string_of(ls[i].as_slice())
        };
        assert(line@ == fr[i as int]) by {
            let lv = lines_of(content@);
            assert(crate::text::views(ls@)[i as int] == ls@[i as int]@);
            assert(lv.len() > 0);
            assert(fr == lv.update(0, trim_bom(lv[0])));
        }
        let ghost before = out@;
        out.push(line);
        assert(out@.map_values(|l: String| l@) =~= before.map_values(|l: String| l@).push(
            fr[i as int],
        ));
        assert(fr.take(i + 1) =~= fr.take(i as int).push(fr[i as int]));
        i = i + 1;
    }
    assert(fr.take(i as int) =~= fr);
}

} // verus!
