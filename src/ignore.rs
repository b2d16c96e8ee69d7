//! Layered ignore rules: built-in defaults, the project's ignore file and
//! the VCS ignore file are merged into one ordered list in which the last
//! matching rule decides; a separate force-include layer overrides them.
use vstd::prelude::*;
use crate::error::CpdError;
use crate::text::{chars_of, lines_of, split_lines, string_of, trim_end, trim_end_chars};

verus! {

/// What the `ignore` crate makes of `glob` as a one-line gitignore rule:
/// whether it is accepted.
pub uninterp spec fn glob_valid(glob: Seq<char>) -> bool;

/// What the `ignore` crate makes of `glob` as a one-line gitignore rule:
/// whether it matches `path` (relative, `/`-separated).
pub uninterp spec fn glob_match(glob: Seq<char>, path: Seq<char>, is_dir: bool) -> bool;

/// Relies on `ignore::gitignore::GitignoreBuilder::add_line` and `build`:
/// whether `glob` compiles as a rule.
#[verifier::external_body]
fn glob_accepted(glob: &str) -> (r: bool)
    ensures
        r == glob_valid(glob@),
{
    let mut builder = ::ignore::gitignore::GitignoreBuilder::new(".");
    builder.add_line(None, glob).is_ok() && builder.build().is_ok()
}

/// Relies on `ignore::gitignore::Gitignore::matched`: whether the one-line
/// matcher built from `glob` matches `path`.
#[verifier::external_body]
fn glob_hits(glob: &str, path: &str, is_dir: bool) -> (r: bool)
    ensures
        r == glob_match(glob@, path@, is_dir),
{
    let mut builder = ::ignore::gitignore::GitignoreBuilder::new(".");
    if builder.add_line(None, glob).is_err() {
        return false;
    }
    match builder.build() {
        Ok(matcher) => !matcher.matched(path, is_dir).is_none(),
        Err(_) => false,
    }
}

/// Where a rule came from, in precedence order.
#[derive(Debug, Clone, Copy, PartialEq, Eq, Structural)]
pub enum Layer {
    Defaults,
    Project,
    Vcs,
    Force,
}

/// One rule: a glob with its polarity and directory anchoring.
#[derive(Debug)]
pub struct Pattern {
    /// The rule as written, without trailing blanks.
    pub text: String,
    /// The glob proper: without the leading `!` and the trailing `/`.
    pub glob: String,
    /// A leading `!`: a match re-includes the path.
    pub negated: bool,
    /// A trailing `/`: the rule matches directories only.
    pub dir_only: bool,
    pub layer: Layer,
}

pub struct PatternView {
    pub text: Seq<char>,
    pub glob: Seq<char>,
    pub negated: bool,
    pub dir_only: bool,
    pub layer: Layer,
}

impl View for Pattern {
    type V = PatternView;

    open spec fn view(&self) -> PatternView {
        PatternView {
            text: self.text@,
            glob: self.glob@,
            negated: self.negated,
            dir_only: self.dir_only,
            layer: self.layer,
        }
    }
}

pub open spec fn views(v: Seq<Pattern>) -> Seq<PatternView> {
    v.map_values(|p: Pattern| p@)
}

/// The rule that a line of a pattern file holds: none for a blank line or a
/// comment.
pub open spec fn rule_of_line(line: Seq<char>, layer: Layer) -> Option<PatternView> {
    let t = trim_end(line);
    if t.len() == 0 || t[0] == '#' {
        None
    } else {
        let negated = t[0] == '!';
        let body = if negated {
            t.drop_first()
        } else {
            t
        };
        let dir_only = body.len() > 0 && body.last() == '/';
        let glob = if dir_only {
            body.drop_last()
        } else {
            body
        };
        Some(PatternView { text: t, glob, negated, dir_only, layer })
    }
}

pub open spec fn rules_of_lines(lines: Seq<Seq<char>>, layer: Layer) -> Seq<PatternView>
    decreases lines.len(),
{
    if lines.len() == 0 {
        Seq::empty()
    } else {
        let before = rules_of_lines(lines.drop_last(), layer);
        match rule_of_line(lines.last(), layer) {
            Some(p) => before.push(p),
            None => before,
        }
    }
}

/// Every rule among `lines` has a glob that compiles (the layer plays no
/// part in the glob).
pub open spec fn lines_valid(lines: Seq<Seq<char>>) -> bool {
    forall|k: int|
        0 <= k < lines.len() ==> match #[trigger] rule_of_line(lines[k], Layer::Defaults) {
            Some(p) => glob_valid(p.glob),
            None => true,
        }
}

pub open spec fn text_valid(text: Option<Seq<char>>) -> bool {
    match text {
        Some(t) => lines_valid(lines_of(t)),
        None => true,
    }
}

pub open spec fn rules_of_text(text: Option<Seq<char>>, layer: Layer) -> Seq<PatternView> {
    match text {
        Some(t) => rules_of_lines(lines_of(t), layer),
        None => Seq::empty(),
    }
}

/// The built-in rules: version control, build output, editor and OS litter.
pub open spec fn default_lines() -> Seq<Seq<char>> {
    seq![
        ".git"@, ".gitignore"@, ".cpdignore"@, ".cpdforce"@, "target"@, "node_modules"@,
        ".env"@, ".env.local"@, "*.tmp"@, "*.temp"@, ".DS_Store"@, "Thumbs.db"@, "*.pyc"@,
        "__pycache__"@, ".pytest_cache"@, ".coverage"@, ".vscode"@, ".idea"@, "*.swp"@,
        "*.swo"@, "*~"@,
    ]
}

/// Whether rule `p` matches `path` itself.
pub open spec fn hits_at(p: PatternView, path: Seq<char>, is_dir: bool) -> bool {
    (!p.dir_only || is_dir) && glob_match(p.glob, path, is_dir)
}

/// `path[..i]` names a directory that holds `path`.
pub open spec fn is_ancestor_cut(path: Seq<char>, i: int) -> bool {
    0 < i < path.len() && path[i] == '/'
}

/// Rule `p` matches `path` or one of the directories above it.
pub open spec fn pattern_matches(p: PatternView, path: Seq<char>, is_dir: bool) -> bool {
    hits_at(p, path, is_dir) || exists|i: int|
        is_ancestor_cut(path, i) && #[trigger] hits_at(p, path.take(i), true)
}

/// The index of the last rule that matches `path`.
pub open spec fn last_match(rules: Seq<PatternView>, path: Seq<char>, is_dir: bool) -> Option<int>
    decreases rules.len(),
{
    if rules.len() == 0 {
        None
    } else if pattern_matches(rules.last(), path, is_dir) {
        Some(rules.len() - 1)
    } else {
        last_match(rules.drop_last(), path, is_dir)
    }
}

/// The index of the last `true` of `hits`.
pub open spec fn last_true(hits: Seq<bool>) -> Option<int>
    decreases hits.len(),
{
    if hits.len() == 0 {
        None
    } else if hits.last() {
        Some(hits.len() - 1)
    } else {
        last_true(hits.drop_last())
    }
}

/// Some rule of the force-include layer matches `path`.
pub open spec fn forced(force: Seq<PatternView>, path: Seq<char>, is_dir: bool) -> bool {
    exists|j: int| 0 <= j < force.len() && #[trigger] pattern_matches(force[j], path, is_dir)
}

/// What the ignore layers decide: the last rule that matches wins, and a
/// path that no rule matches is included.
pub open spec fn layered_include(rules: Seq<PatternView>, path: Seq<char>, is_dir: bool) -> bool {
    match last_match(rules, path, is_dir) {
        Some(j) => rules[j].negated,
        None => true,
    }
}

pub open spec fn includes(
    rules: Seq<PatternView>,
    force: Seq<PatternView>,
    path: Seq<char>,
    is_dir: bool,
) -> bool {
    forced(force, path, is_dir) || layered_include(rules, path, is_dir)
}

/// The verdict on one path, with what produced it.
#[derive(Debug, Clone, Copy)]
pub struct Decision {
    pub included: bool,
    /// A rule of the force-include layer matched.
    pub forced: bool,
    /// The index of the last matching rule of the ignore layers.
    pub rule: Option<usize>,
}

/// The rule that `line` holds, as `rule_of_line` states.
pub fn parse_rule(line: &[char], layer: Layer) -> (r: Option<Pattern>)
    ensures
        match r {
            Some(p) => rule_of_line(line@, layer) == Some(p@),
            None => rule_of_line(line@, layer) is None,
        },
{
    let t = trim_end_chars(line);
    if t.len() == 0 || t[0] == '#' {
        return None;
    }
    let negated = t[0] == '!';
    let start: usize = if negated { 1 } else { 0 };
    let mut end: usize = t.len();
    let dir_only = end > start && t[end - 1] == '/';
    if dir_only {
        end = end - 1;
    }
    let mut glob: Vec<char> = Vec::new();
    let mut i: usize = start;
    while i < end
        invariant
            start <= i <= end <= t@.len(),
            glob@ == t@.subrange(start as int, i as int),
        decreases end - i,
    {
        glob.push(t[i]);
        i = i + 1;
        assert(glob@ =~= t@.subrange(start as int, i as int));
    }
    let ghost body = if negated { t@.drop_first() } else { t@ };
    proof {
        assert(body =~= t@.subrange(start as int, t@.len() as int));
        if dir_only {
            assert(body.drop_last() =~= glob@);
        } else {
            assert(body =~= glob@);
        }
    }
    Some(Pattern { text: string_of(t.as_slice()), glob: string_of(glob.as_slice()), negated, dir_only, layer })
}

/// Appends the rules of `lines` to `out`; fails on the first rule whose
/// glob does not compile.
fn add_lines(lines: &Vec<Vec<char>>, layer: Layer, out: &mut Vec<Pattern>) -> (r: Result<(), CpdError>)
    ensures
        r is Ok <==> lines_valid(lines@.map_values(|l: Vec<char>| l@)),
        r is Ok ==> views(final(out)@) == views(old(out)@) + rules_of_lines(
            lines@.map_values(|l: Vec<char>| l@),
            layer,
        ),
        r matches Err(CpdError::InvalidIgnorePattern { .. }) || r is Ok,
{
    let ghost ls = lines@.map_values(|l: Vec<char>| l@);
    let ghost start = views(out@);
    let mut i: usize = 0;
    while i < lines.len()
        invariant
            ls == lines@.map_values(|l: Vec<char>| l@),
            i <= lines@.len(),
            lines_valid(ls.take(i as int)),
            views(out@) == start + rules_of_lines(ls.take(i as int), layer),
        decreases lines@.len() - i,
    {
        let ghost before = out@;
        assert(ls.take(i + 1).drop_last() =~= ls.take(i as int));
        assert(ls.take(i + 1).last() == lines@[i as int]@);
        match parse_rule(lines[i].as_slice(), layer) {
            Some(p) => {
                proof {
                    assert(rule_of_line(ls[i as int], Layer::Defaults) == Some(
                        PatternView { layer: Layer::Defaults, ..p@ },
                    ));
                }
                if !glob_accepted(p.glob.as_str()) {
                    proof {
                        assert(!match rule_of_line(ls[i as int], Layer::Defaults) {
                            Some(q) => glob_valid(q.glob),
                            None => true,
                        });
                    }
                    return Err(CpdError::InvalidIgnorePattern { pattern: p.text });
                }
                out.push(p);
                assert(views(out@) =~= views(before).push(p@));
            },
            None => {
                assert(rule_of_line(ls[i as int], Layer::Defaults) is None);
            },
        }
        i = i + 1;
        assert(lines_valid(ls.take(i as int))) by {
            assert forall|k: int| 0 <= k < i implies match #[trigger] rule_of_line(
                ls.take(i as int)[k],
                Layer::Defaults,
            ) {
                Some(q) => glob_valid(q.glob),
                None => true,
            } by {
                if k < i - 1 {
                    assert(ls.take(i as int)[k] == ls.take(i - 1)[k]);
                }
            }
        }
    }
    assert(ls.take(i as int) =~= ls);
    Ok(())
}

/// Whether rule `p` matches `path` or a directory above it.
fn rule_matches(p: &Pattern, path: &[char], is_dir: bool) -> (r: bool)
    ensures
        r == pattern_matches(p@, path@, is_dir),
{
    if !p.dir_only || is_dir {
        let whole = string_of(path);
        if glob_hits(p.glob.as_str(), whole.as_str(), is_dir) {
            return true;
        }
    }
    let mut prefix: Vec<char> = Vec::new();
    let mut i: usize = 0;
    while i < path.len()
        invariant
            i <= path@.len(),
            prefix@ == path@.take(i as int),
            !hits_at(p@, path@, is_dir),
            forall|j: int|
                0 <= j < i ==> !(is_ancestor_cut(path@, j) && #[trigger] hits_at(
                    p@,
                    path@.take(j),
                    true,
                )),
        decreases path@.len() - i,
    {
        if i > 0 && path[i] == '/' {
            let dir = string_of(prefix.as_slice());
            if glob_hits(p.glob.as_str(), dir.as_str(), true) {
                assert(is_ancestor_cut(path@, i as int) && hits_at(p@, path@.take(i as int), true));
                return true;
            }
        }
        prefix.push(path[i]);
        i = i + 1;
        assert(prefix@ =~= path@.take(i as int));
    }
    false
}

/// Whether some rule of `force` matches `path`.
fn any_forced(force: &Vec<Pattern>, path: &[char], is_dir: bool) -> (r: bool)
    ensures
        r == forced(views(force@), path@, is_dir),
{
    let mut j: usize = 0;
    while j < force.len()
        invariant
            j <= force@.len(),
            forall|k: int| 0 <= k < j ==> !#[trigger] pattern_matches(views(force@)[k], path@, is_dir),
        decreases force@.len() - j,
    {
        if rule_matches(&force[j], path, is_dir) {
            assert(pattern_matches(views(force@)[j as int], path@, is_dir));
            return true;
        }
        j = j + 1;
    }
    false
}

pub open spec fn text_view(t: Option<&str>) -> Option<Seq<char>> {
    match t {
        Some(s) => Some(s@),
        None => None,
    }
}

/// Appends the rules of `text`, if there is one, to `out`.
fn add_text(text: Option<&str>, layer: Layer, out: &mut Vec<Pattern>) -> (r: Result<(), CpdError>)
    ensures
        r is Ok <==> text_valid(text_view(text)),
        r is Ok ==> views(final(out)@) == views(old(out)@) + rules_of_text(text_view(text), layer),
        r matches Err(CpdError::InvalidIgnorePattern { .. }) || r is Ok,
{
    match text {
        Some(t) => {
            let chars = chars_of(t);
            let lines = split_lines(chars.as_slice());
            assert(lines@.map_values(|l: Vec<char>| l@) =~= lines_of(t@));
            add_lines(&lines, layer, out)
        },
        None => {
            assert(views(out@) =~= views(out@) + Seq::<PatternView>::empty());
            Ok(())
        },
    }
}

/// A path taken relative to `root`: a relative path stands as it is, an
/// absolute one must lie under `root`.
pub open spec fn relative_to(root: Seq<char>, path: Seq<char>) -> Option<Seq<char>> {
    if !is_absolute(path) {
        Some(path)
    } else if root.len() > 0 && path.len() >= root.len() && path.take(root.len() as int) == root {
        let rest = path.skip(root.len() as int);
        if rest.len() == 0 || root.last() == '/' {
            Some(rest)
        } else if rest[0] == '/' {
            Some(rest.drop_first())
        } else {
            None
        }
    } else {
        None
    }
}

pub open spec fn is_absolute(path: Seq<char>) -> bool {
    (path.len() > 0 && path[0] == '/') || (path.len() > 1 && path[1] == ':')
}

fn relative_chars(root: &[char], path: &[char]) -> (r: Option<Vec<char>>)
    ensures
        match r {
            Some(v) => relative_to(root@, path@) == Some(v@),
            None => relative_to(root@, path@) is None,
        },
{
    let absolute = (path.len() > 0 && path[0] == '/') || (path.len() > 1 && path[1] == ':');
    if !absolute {
        let mut v: Vec<char> = Vec::new();
        let mut i: usize = 0;
        while i < path.len()
            invariant
                i <= path@.len(),
                v@ == path@.take(i as int),
            decreases path@.len() - i,
        {
            v.push(path[i]);
            i = i + 1;
            assert(v@ =~= path@.take(i as int));
        }
        assert(v@ =~= path@);
        return Some(v);
    }
    if root.len() == 0 || path.len() < root.len() {
        return None;
    }
    let mut i: usize = 0;
    while i < root.len()
        invariant
            i <= root@.len() <= path@.len(),
            is_absolute(path@),
            path@.take(i as int) == root@.take(i as int),
        decreases root@.len() - i,
    {
        if path[i] != root[i] {
            assert(path@.take(root@.len() as int)[i as int] != root@[i as int]);
            return None;
        }
        i = i + 1;
        assert(path@.take(i as int) =~= root@.take(i as int));
    }
    assert(root@.take(root@.len() as int) =~= root@);
    let n = root.len();
    let mut start: usize = n;
    if n < path.len() && root[n - 1] != '/' {
        if path[n] != '/' {
            return None;
        }
        start = n + 1;
    }
    let mut v: Vec<char> = Vec::new();
    let mut k: usize = start;
    while k < path.len()
        invariant
            start <= k <= path@.len(),
            v@ == path@.subrange(start as int, k as int),
        decreases path@.len() - k,
    {
        v.push(path[k]);
        k = k + 1;
        assert(v@ =~= path@.subrange(start as int, k as int));
    }
    proof {
        let rest = path@.skip(n as int);
        if start == n {
            assert(v@ =~= rest);
        } else {
            assert(v@ =~= rest.drop_first());
        }
    }
    Some(v)
}

/// The compiled rules of a project: the merged ignore layers and the
/// force-include layer. Built once, then only read.
pub struct IgnoreFilter {
    rules: Vec<Pattern>,
    force: Vec<Pattern>,
    project_root: String,
}

pub struct FilterView {
    /// Defaults, then the project's ignore file, then the VCS ignore file.
    pub rules: Seq<PatternView>,
    pub force: Seq<PatternView>,
    pub root: Seq<char>,
}

impl View for IgnoreFilter {
    type V = FilterView;

    closed spec fn view(&self) -> FilterView {
        FilterView { rules: views(self.rules@), force: views(self.force@), root: self.project_root@ }
    }
}

impl IgnoreFilter {
    /// Builds the rules of a project rooted at `project_root` from the
    /// built-in defaults and the texts of its pattern files, each absent
    /// where the file is. Fails on the first rule whose glob does not
    /// compile.
    pub fn new(
        project_root: &str,
        project_ignore: Option<&str>,
        vcs_ignore: Option<&str>,
        force_include: Option<&str>,
    ) -> (r: Result<IgnoreFilter, CpdError>)
        ensures
            r is Ok <==> lines_valid(default_lines()) && text_valid(text_view(project_ignore))
                && text_valid(text_view(vcs_ignore)) && text_valid(text_view(force_include)),
            r matches Ok(f) ==> f@ == (FilterView {
                rules: rules_of_lines(default_lines(), Layer::Defaults) + rules_of_text(
                    text_view(project_ignore),
                    Layer::Project,
                ) + rules_of_text(text_view(vcs_ignore), Layer::Vcs),
                force: rules_of_text(text_view(force_include), Layer::Force),
                root: project_root@,
            }),
            r is Err ==> r->Err_0 is InvalidIgnorePattern,
    {
        let mut rules: Vec<Pattern> = Vec::new();
        let d = Self::add_default_patterns(&mut rules);
        if d.is_err() {
            return Err(d.unwrap_err());
        }
        let p = add_text(project_ignore, Layer::Project, &mut rules);
        if p.is_err() {
            return Err(p.unwrap_err());
        }
        let v = add_text(vcs_ignore, Layer::Vcs, &mut rules);
        if v.is_err() {
            return Err(v.unwrap_err());
        }
        let mut force: Vec<Pattern> = Vec::new();
        let f = add_text(force_include, Layer::Force, &mut force);
        if f.is_err() {
            return Err(f.unwrap_err());
        }
        assert(views(force@) =~= rules_of_text(text_view(force_include), Layer::Force));
        Ok(IgnoreFilter { rules, force, project_root: string_of(chars_of(project_root).as_slice()) })
    }

    /// Appends the built-in rules to `out`.
    fn add_default_patterns(out: &mut Vec<Pattern>) -> (r: Result<(), CpdError>)
        ensures
            r is Ok <==> lines_valid(default_lines()),
            r is Ok ==> views(final(out)@) == views(old(out)@) + rules_of_lines(
                default_lines(),
                Layer::Defaults,
            ),
            r matches Err(CpdError::InvalidIgnorePattern { .. }) || r is Ok,
    {
        let texts = vec![
            ".git", ".gitignore", ".cpdignore", ".cpdforce", "target", "node_modules", ".env",
            ".env.local", "*.tmp", "*.temp", ".DS_Store", "Thumbs.db", "*.pyc", "__pycache__",
            ".pytest_cache", ".coverage", ".vscode", ".idea", "*.swp", "*.swo", "*~",
        ];
        let mut lines: Vec<Vec<char>> = Vec::new();
        let mut i: usize = 0;
        while i < texts.len()
            invariant
                i <= texts@.len(),
                lines@.len() == i,
                forall|k: int| 0 <= k < i ==> #[trigger] lines@[k]@ == texts@[k]@,
            decreases texts@.len() - i,
        {
            lines.push(chars_of(texts[i]));
            i = i + 1;
        }
        assert(lines@.map_values(|l: Vec<char>| l@) =~= default_lines());
        add_lines(&lines, Layer::Defaults, out)
    }

    fn decide_chars(&self, path: &[char], is_dir: bool) -> (d: Decision)
        ensures
            d.forced == forced(self@.force, path@, is_dir),
            match d.rule {
                Some(k) => last_match(self@.rules, path@, is_dir) == Some(k as int),
                None => last_match(self@.rules, path@, is_dir) is None,
            },
            d.included == includes(self@.rules, self@.force, path@, is_dir),
    {
        let forced = any_forced(&self.force, path, is_dir);
        let mut hits: Vec<bool> = Vec::new();
        let mut k: usize = 0;
        while k < self.rules.len()
            invariant
                k <= self.rules@.len(),
                self@.rules == views(self.rules@),
                hits@.len() == k,
                forall|j: int|
                    0 <= j < k ==> #[trigger] hits@[j] == pattern_matches(self@.rules[j], path@, is_dir),
            decreases self.rules@.len() - k,
        {
            hits.push(rule_matches(&self.rules[k], path, is_dir));
            k = k + 1;
        }
        proof {
            lemma_last_true_is_last_match(self@.rules, hits@, path@, is_dir);
            lemma_last_match_in_range(self@.rules, path@, is_dir);
            if let Some(j) = last_match(self@.rules, path@, is_dir) {
                assert(self@.rules[j].negated == self.rules@[j].negated);
            }
        }
        verdict(&self.rules, &hits, forced)
    }

    /// The verdict on `path`, relative to the project root: the force-include
    /// layer first, else the last matching rule of the ignore layers, else
    /// inclusion.
    pub fn decide(&self, path: &str, is_dir: bool) -> (d: Decision)
        ensures
            d.forced == forced(self@.force, path@, is_dir),
            match d.rule {
                Some(k) => last_match(self@.rules, path@, is_dir) == Some(k as int),
                None => last_match(self@.rules, path@, is_dir) is None,
            },
            d.included == includes(self@.rules, self@.force, path@, is_dir),
    {
        let chars = chars_of(path);
        self.decide_chars(chars.as_slice(), is_dir)
    }

    /// Whether `path` is deployed. An absolute path is taken relative to the
    /// project root; one outside the root is included.
    pub fn should_include(&self, path: &str, is_dir: bool) -> (r: bool)
        ensures
            r == match relative_to(self@.root, path@) {
                Some(rel) => includes(self@.rules, self@.force, rel, is_dir),
                None => true,
            },
    {
        let root = chars_of(self.project_root.as_str());
        let chars = chars_of(path);
        match relative_chars(root.as_slice(), chars.as_slice()) {
            Some(rel) => self.decide_chars(rel.as_slice(), is_dir).included,
            None => true,
        }
    }

    /// Whether a path is included, for `should_include` on a non-directory.
    pub open spec fn includes_path(&self, path: Seq<char>) -> bool {
        match relative_to(self@.root, path) {
            Some(rel) => includes(self@.rules, self@.force, rel, false),
            None => true,
        }
    }

    /// The inclusion test as a predicate over file paths.
    pub fn filter_fn(&self) -> (f: impl Fn(&str) -> bool + '_)
        ensures
            forall|path: &str| #[trigger] f.requires((path,)),
            forall|path: &str, r: bool| f.ensures((path,), r) ==> r == self.includes_path(path@),
    {
        move |path: &str| -> (r: bool)
            ensures
                r == self.includes_path(path@),
            { self.should_include(path, false) }
    }

    /// The rule at `index` of the merged ignore layers.
    pub fn rule(&self, index: usize) -> (p: &Pattern)
        requires
            index < self@.rules.len(),
        ensures
            p@ == self@.rules[index as int],
    {
        &self.rules[index]
    }

    /// The text of every rule: the ignore layers in order, then the
    /// force-include layer.
    pub fn list_patterns(&self) -> (r: Vec<String>)
        ensures
            r@.len() == self@.rules.len() + self@.force.len(),
            forall|k: int| 0 <= k < self@.rules.len() ==> #[trigger] r@[k]@ == self@.rules[k].text,
            forall|k: int|
                0 <= k < self@.force.len() ==> #[trigger] r@[self@.rules.len() + k]@
                    == self@.force[k].text,
    {
        let mut r: Vec<String> = Vec::new();
        let mut i: usize = 0;
        while i < self.rules.len()
            invariant
                i <= self@.rules.len(),
                self@.rules == views(self.rules@),
                r@.len() == i,
                forall|k: int| 0 <= k < i ==> #[trigger] r@[k]@ == self@.rules[k].text,
            decreases self@.rules.len() - i,
        {
            r.push(string_of(chars_of(self.rules[i].text.as_str()).as_slice()));
            i = i + 1;
        }
        let n = self.rules.len();
        let mut j: usize = 0;
        while j < self.force.len()
            invariant
                j <= self@.force.len(),
                n == self@.rules.len(),
                self@.force == views(self.force@),
                r@.len() == n + j,
                forall|k: int| 0 <= k < n ==> #[trigger] r@[k]@ == self@.rules[k].text,
                forall|k: int| 0 <= k < j ==> #[trigger] r@[n + k]@ == self@.force[k].text,
            decreases self@.force.len() - j,
        {
            r.push(string_of(chars_of(self.force[j].text.as_str()).as_slice()));
            j = j + 1;
        }
        r
    }
}

/// The verdict on a path from which rules match it: `hits[k]` tells whether
/// rule `k` of the ignore layers does, `forced` whether some rule of the
/// force-include layer does. The last matching rule decides; a path that no
/// rule matches is included; a forced path is included.
pub fn verdict(rules: &Vec<Pattern>, hits: &Vec<bool>, forced: bool) -> (d: Decision)
    requires
        hits@.len() == rules@.len(),
    ensures
        d.forced == forced,
        match d.rule {
            Some(k) => last_true(hits@) == Some(k as int),
            None => last_true(hits@) is None,
        },
        d.included == (forced || match last_true(hits@) {
            Some(k) => rules@[k].negated,
            None => true,
        }),
{
    let mut i: usize = hits.len();
    assert(hits@.take(i as int) =~= hits@);
    while i > 0
        invariant
            i <= hits@.len(),
            hits@.len() == rules@.len(),
            last_true(hits@) == last_true(hits@.take(i as int)),
        decreases i,
    {
        assert(hits@.take(i as int).last() == hits@[i - 1]);
        if hits[i - 1] {
            return Decision { included: forced || rules[i - 1].negated, forced, rule: Some(i - 1) };
        }
        assert(hits@.take(i as int).drop_last() =~= hits@.take(i - 1));
        i = i - 1;
    }
    Decision { included: true, forced, rule: None }
}

proof fn lemma_last_true_is_last_match(
    rules: Seq<PatternView>,
    hits: Seq<bool>,
    path: Seq<char>,
    is_dir: bool,
)
    requires
        hits.len() == rules.len(),
        forall|j: int| 0 <= j < hits.len() ==> #[trigger] hits[j] == pattern_matches(rules[j], path, is_dir),
    ensures
        last_true(hits) == last_match(rules, path, is_dir),
    decreases hits.len(),
{
    if hits.len() > 0 {
        let h = hits.drop_last();
        let r = rules.drop_last();
        assert forall|j: int| 0 <= j < h.len() implies #[trigger] h[j] == pattern_matches(
            r[j],
            path,
            is_dir,
        ) by {
            assert(h[j] == hits[j] && r[j] == rules[j]);
        }
        lemma_last_true_is_last_match(r, h, path, is_dir);
        assert(hits[hits.len() - 1] == pattern_matches(rules[rules.len() - 1], path, is_dir));
    }
}

pub open spec fn texts_view(v: Seq<&str>) -> Seq<Seq<char>> {
    v.map_values(|s: &str| s@)
}

/// A filter made of `patterns` alone, one rule per entry, relative to no
/// root and without the built-in rules or a force-include layer.
pub fn create_simple_filter(patterns: &[&str]) -> (r: Result<IgnoreFilter, CpdError>)
    ensures
        r is Ok <==> lines_valid(texts_view(patterns@)),
        r matches Ok(f) ==> f@ == (FilterView {
            rules: rules_of_lines(texts_view(patterns@), Layer::Project),
            force: Seq::empty(),
            root: Seq::empty(),
        }),
        r is Err ==> r->Err_0 is InvalidIgnorePattern,
{
    let mut lines: Vec<Vec<char>> = Vec::new();
    let mut i: usize = 0;
    while i < patterns.len()
        invariant
            i <= patterns@.len(),
            lines@.len() == i,
            forall|k: int| 0 <= k < i ==> #[trigger] lines@[k]@ == patterns@[k]@,
        decreases patterns@.len() - i,
    {
        lines.push(chars_of(patterns[i]));
        i = i + 1;
    }
    assert(lines@.map_values(|l: Vec<char>| l@) =~= texts_view(patterns@));
    let mut rules: Vec<Pattern> = Vec::new();
    let added = add_lines(&lines, Layer::Project, &mut rules);
    if added.is_err() {
        return Err(added.unwrap_err());
    }
    assert(views(rules@) =~= rules_of_lines(texts_view(patterns@), Layer::Project));
    let force: Vec<Pattern> = Vec::new();
    assert(views(force@) =~= Seq::<PatternView>::empty());
    Ok(IgnoreFilter { rules, force, project_root: String::new() })
}

proof fn lemma_last_match_in_range(rules: Seq<PatternView>, path: Seq<char>, is_dir: bool)
    ensures
        last_match(rules, path, is_dir) matches Some(k) ==> 0 <= k < rules.len() && pattern_matches(
            rules[k],
            path,
            is_dir,
        ),
    decreases rules.len(),
{
    if rules.len() > 0 {
        lemma_last_match_in_range(rules.drop_last(), path, is_dir);
    }
}

proof fn lemma_no_match_no_last(rules: Seq<PatternView>, path: Seq<char>, is_dir: bool)
    requires
        forall|k: int| 0 <= k < rules.len() ==> !#[trigger] pattern_matches(rules[k], path, is_dir),
    ensures
        last_match(rules, path, is_dir) is None,
    decreases rules.len(),
{
    if rules.len() > 0 {
        let front = rules.drop_last();
        assert forall|k: int| 0 <= k < front.len() implies !#[trigger] pattern_matches(
            front[k],
            path,
            is_dir,
        ) by {
            assert(front[k] == rules[k]);
        }
        assert(!pattern_matches(rules[rules.len() - 1], path, is_dir));
        lemma_no_match_no_last(front, path, is_dir);
    }
}

/// Fail-open: a path that no rule of any layer matches is included.
pub proof fn lemma_unmatched_path_included(f: FilterView, path: Seq<char>, is_dir: bool)
    requires
        forall|k: int| 0 <= k < f.rules.len() ==> !#[trigger] pattern_matches(f.rules[k], path, is_dir),
        forall|k: int| 0 <= k < f.force.len() ==> !#[trigger] pattern_matches(f.force[k], path, is_dir),
    ensures
        includes(f.rules, f.force, path, is_dir),
        last_match(f.rules, path, is_dir) is None,
{
    lemma_no_match_no_last(f.rules, path, is_dir);
}

/// A match in the force-include layer includes the path, whatever the
/// ignore layers hold: even a later rule that excludes it is overridden.
pub proof fn lemma_force_overrides(
    rules: Seq<PatternView>,
    force: Seq<PatternView>,
    path: Seq<char>,
    is_dir: bool,
    j: int,
)
    requires
        0 <= j < force.len(),
        pattern_matches(force[j], path, is_dir),
    ensures
        includes(rules, force, path, is_dir),
{
}

} // verus!
