//! Path classification and rendering.
//!
//! A path is classified once into a [`ShortPath`]: a [`PathType`] and the
//! segments below the root that the type stands for. A `ShortPath` renders
//! into an ordered list of components, each tagged with the region of the
//! abbreviation scheme it falls in and with its role.

use crate::text::{chars_of, push_char, starts_with, string_from_range};
use vstd::prelude::*;
use vstd::string::StringExecFns;

verus! {

/// The icon of a path in a world tree.
pub const SYMBOL_WORLD: &'static str = "\u{f484} ";

/// The icon of a path in a repository.
pub const SYMBOL_GIT: &'static str = "\u{e0a0} ";

/// The icon of a path in a repository whose root names GitHub.
pub const SYMBOL_GITHUB: &'static str = "\u{ea84} ";

/// The icon of a path in a repository whose origin is on GitHub.
pub const SYMBOL_GITHUB_INVERTED: &'static str = "\u{f09b} ";

/// The icon of a path below the home directory.
pub const SYMBOL_HOME: &'static str = "~";

/// The icon of any other path: the root slash.
pub const SYMBOL_ROOT: &'static str = "/";

/// Separator between the worktree and the project of a world-tree path.
pub const SEPARATOR_WORLD: &'static str = "//";

/// Separator between an owner and a repository, and in front of a segment.
pub const SEPARATOR: &'static str = "/";

/// Separator in front of a branch label.
pub const SEPARATOR_BRANCH: &'static str = " ";

/// The color code of the icon and worktree of a world-tree path.
pub const COLOR_BLUE: &'static str = "\x1b[34m";

/// The color code of the icon and owner of a GitHub path.
pub const COLOR_MAGENTA: &'static str = "\x1b[35m";

/// The color code of the icon of any other repository.
pub const COLOR_GREEN: &'static str = "\x1b[32m";

/// The color code of the home icon and of projects, repositories and segments.
pub const COLOR_YELLOW: &'static str = "\x1b[33m";

/// The color code of the root icon.
pub const COLOR_GRAY: &'static str = "\x1b[90m";

/// The code that dims a branch label.
pub const COLOR_DIM: &'static str = "\x1b[2m";

/// The code that ends a color.
pub const COLOR_RESET: &'static str = "\x1b[0m";

/// Where in the abbreviation scheme a component falls.
#[derive(Debug, Clone, Copy, PartialEq, Eq, Structural)]
pub enum ShortPathPart {
    Prefix,
    Infix,
    Suffix,
    BranchPart,
}

/// The role of a component.
#[derive(Debug, Clone, Copy, PartialEq, Eq, Structural)]
pub enum ComponentType {
    Icon,
    Worktree,
    Project,
    Owner,
    Repo,
    Separator,
    Shortened,
    Path,
    Branch,
}

/// The semantic type of a path: exactly one per path.
#[derive(Debug, Clone, PartialEq)]
pub enum PathType {
    WorldTree { worktree: String, project: String },
    GitHub { owner: String, repo: String },
    GitHubRemote { owner: String, repo: String },
    Git { repo_name: String },
    Home,
    Regular,
}

/// What a [`PathType`] holds, as plain sequences of scalars.
pub enum PathKind {
    WorldTree { worktree: Seq<char>, project: Seq<char> },
    GitHub { owner: Seq<char>, repo: Seq<char> },
    GitHubRemote { owner: Seq<char>, repo: Seq<char> },
    Git { repo_name: Seq<char> },
    Home,
    Regular,
}

impl View for PathType {
    type V = PathKind;

    open spec fn view(&self) -> PathKind {
        match self {
            PathType::WorldTree { worktree, project } => PathKind::WorldTree {
                worktree: worktree@,
                project: project@,
            },
            PathType::GitHub { owner, repo } => PathKind::GitHub { owner: owner@, repo: repo@ },
            PathType::GitHubRemote { owner, repo } => PathKind::GitHubRemote {
                owner: owner@,
                repo: repo@,
            },
            PathType::Git { repo_name } => PathKind::Git { repo_name: repo_name@ },
            PathType::Home => PathKind::Home,
            PathType::Regular => PathKind::Regular,
        }
    }
}

/// One renderable piece: region, role and text.
pub type Component = (ShortPathPart, ComponentType, String);

/// A [`Component`] with its text as a sequence of scalars.
pub type ComponentView = (ShortPathPart, ComponentType, Seq<char>);

/// The components of a list, each with its text as a sequence of scalars.
pub open spec fn components_view(cs: Seq<Component>) -> Seq<ComponentView> {
    cs.map_values(|c: Component| (c.0, c.1, c.2@))
}

/// The texts of a list of strings.
pub open spec fn strings_view(ss: Seq<String>) -> Seq<Seq<char>> {
    ss.map_values(|s: String| s@)
}

/// The text of an optional string.
pub open spec fn option_view(s: Option<String>) -> Option<Seq<char>> {
    match s {
        Some(s) => Some(s@),
        None => None,
    }
}

/// The first scalar of a segment, alone; U+0000 for an empty segment.
pub open spec fn abbreviation(segment: Seq<char>) -> Seq<char> {
    if segment.len() > 0 {
        seq![segment[0]]
    } else {
        seq!['\0']
    }
}

/// The texts of the components that `keep` accepts, joined in order.
pub open spec fn texts_where(cs: Seq<ComponentView>, keep: spec_fn(ComponentView) -> bool) -> Seq<
    char,
>
    decreases cs.len(),
{
    if cs.len() == 0 {
        Seq::empty()
    } else {
        texts_where(cs.drop_last(), keep) + (if keep(cs.last()) {
            cs.last().2
        } else {
            Seq::empty()
        })
    }
}

/// Accepts the components that fall in one of the regions `targets`.
pub open spec fn in_regions(targets: Seq<ShortPathPart>) -> spec_fn(ComponentView) -> bool {
    |c: ComponentView| targets.contains(c.0)
}

/// Accepts every component but an icon.
pub open spec fn not_icon() -> spec_fn(ComponentView) -> bool {
    |c: ComponentView| c.1 != ComponentType::Icon
}

/// A classified path: its type and the segments below the root of that type.
#[derive(Debug, Clone, PartialEq)]
pub struct ShortPath {
    pub path_type: PathType,
    pub segments: Vec<String>,
}

/// What a [`ShortPath`] holds, as plain sequences.
pub struct ShortPathView {
    pub path_type: PathKind,
    pub segments: Seq<Seq<char>>,
}

impl View for ShortPath {
    type V = ShortPathView;

    open spec fn view(&self) -> ShortPathView {
        ShortPathView { path_type: self.path_type@, segments: strings_view(self.segments@) }
    }
}

impl ShortPathView {
    /// No segment is empty.
    pub open spec fn wf(self) -> bool {
        forall|i: int| 0 <= i < self.segments.len() ==> (#[trigger] self.segments[i]).len() > 0
    }

    /// How many leading segments are abbreviated when the last `max_keep` are kept.
    pub open spec fn shorten_count(self, max_keep: nat) -> int {
        if self.segments.len() > max_keep {
            self.segments.len() - max_keep
        } else {
            0
        }
    }

    /// The icon and the identity fields of the path type.
    pub open spec fn prefix_components(self) -> Seq<ComponentView> {
        match self.path_type {
            PathKind::WorldTree { worktree, project } => seq![
                (ShortPathPart::Prefix, ComponentType::Icon, SYMBOL_WORLD@),
                (ShortPathPart::Prefix, ComponentType::Worktree, worktree),
                (ShortPathPart::Prefix, ComponentType::Separator, SEPARATOR_WORLD@),
                (ShortPathPart::Prefix, ComponentType::Project, project),
            ],
            PathKind::GitHub { owner, repo } => seq![
                (ShortPathPart::Prefix, ComponentType::Icon, SYMBOL_GITHUB@),
                (ShortPathPart::Prefix, ComponentType::Owner, owner),
                (ShortPathPart::Prefix, ComponentType::Separator, SEPARATOR@),
                (ShortPathPart::Prefix, ComponentType::Repo, repo),
            ],
            PathKind::GitHubRemote { owner, repo } => seq![
                (ShortPathPart::Prefix, ComponentType::Icon, SYMBOL_GITHUB_INVERTED@),
                (ShortPathPart::Prefix, ComponentType::Owner, owner),
                (ShortPathPart::Prefix, ComponentType::Separator, SEPARATOR@),
                (ShortPathPart::Prefix, ComponentType::Repo, repo),
            ],
            PathKind::Git { repo_name } => seq![
                (ShortPathPart::Prefix, ComponentType::Icon, SYMBOL_GIT@),
                (ShortPathPart::Prefix, ComponentType::Repo, repo_name),
            ],
            PathKind::Home => seq![(ShortPathPart::Prefix, ComponentType::Icon, SYMBOL_HOME@)],
            PathKind::Regular => seq![(ShortPathPart::Prefix, ComponentType::Icon, SYMBOL_ROOT@)],
        }
    }

    /// Whether a separator stands in front of segment `i`: in front of every
    /// segment but the first of a regular path, whose root icon is that separator.
    pub open spec fn needs_separator(self, i: int) -> bool {
        i > 0 || !(self.path_type is Regular)
    }

    /// The components of segment `i`: its separator, where it has one, then
    /// the segment, abbreviated if it is one of the first `shorten_count`.
    pub open spec fn segment_piece(self, i: int, shorten_count: int) -> Seq<ComponentView> {
        let region = if i < shorten_count {
            ShortPathPart::Infix
        } else {
            ShortPathPart::Suffix
        };
        let sep: Seq<ComponentView> = if self.needs_separator(i) {
            seq![(region, ComponentType::Separator, SEPARATOR@)]
        } else {
            Seq::empty()
        };
        if i < shorten_count {
            sep.push((region, ComponentType::Shortened, abbreviation(self.segments[i])))
        } else {
            sep.push((region, ComponentType::Path, self.segments[i]))
        }
    }

    /// The components of the first `upto` segments.
    pub open spec fn segment_components(self, upto: int, shorten_count: int) -> Seq<ComponentView>
        decreases upto,
    {
        if upto <= 0 {
            Seq::empty()
        } else {
            self.segment_components(upto - 1, shorten_count) + self.segment_piece(
                upto - 1,
                shorten_count,
            )
        }
    }

    /// The components of a branch label: a blank, then the label.
    pub open spec fn branch_components(branch: Option<Seq<char>>) -> Seq<ComponentView> {
        match branch {
            Some(b) => seq![
                (ShortPathPart::BranchPart, ComponentType::Separator, SEPARATOR_BRANCH@),
                (ShortPathPart::BranchPart, ComponentType::Branch, b),
            ],
            None => Seq::empty(),
        }
    }

    /// The renderable form of the path: prefix, segments, branch.
    pub open spec fn components(self, max_keep: nat, branch: Option<Seq<char>>) -> Seq<
        ComponentView,
    > {
        self.prefix_components() + self.segment_components(
            self.segments.len() as int,
            self.shorten_count(max_keep),
        ) + Self::branch_components(branch)
    }

    /// The texts of the components in one of the regions `targets`, joined in order.
    pub open spec fn build(self, max_keep: nat, targets: Seq<ShortPathPart>) -> Seq<char> {
        texts_where(self.components(max_keep, None), in_regions(targets))
    }

    /// The color of the icon and of the worktree or owner.
    pub open spec fn icon_color(self) -> Seq<char> {
        match self.path_type {
            PathKind::WorldTree { .. } => COLOR_BLUE@,
            PathKind::GitHub { .. } => COLOR_MAGENTA@,
            PathKind::GitHubRemote { .. } => COLOR_GREEN@,
            PathKind::Git { .. } => COLOR_GREEN@,
            PathKind::Home => COLOR_YELLOW@,
            PathKind::Regular => COLOR_GRAY@,
        }
    }

    /// One component in color: its color code, its text (a branch in square
    /// brackets), the reset code.
    pub open spec fn colored(self, c: ComponentView) -> Seq<char> {
        match c.1 {
            ComponentType::Icon | ComponentType::Worktree | ComponentType::Owner => self.icon_color()
                + c.2 + COLOR_RESET@,
            ComponentType::Separator => COLOR_RESET@ + c.2 + COLOR_RESET@,
            ComponentType::Branch => COLOR_DIM@ + seq!['['] + c.2 + seq![']'] + COLOR_RESET@,
            _ => COLOR_YELLOW@ + c.2 + COLOR_RESET@,
        }
    }

    /// The colored forms of a list of components, joined in order.
    pub open spec fn colored_all(self, cs: Seq<ComponentView>) -> Seq<char>
        decreases cs.len(),
    {
        if cs.len() == 0 {
            Seq::empty()
        } else {
            self.colored_all(cs.drop_last()) + self.colored(cs.last())
        }
    }

    /// The colored rendering, with the last segment kept in full.
    pub open spec fn display(self, branch: Option<Seq<char>>) -> Seq<char> {
        self.colored_all(self.components(1, branch))
    }
}

/// Collects components, tagging each with the region that is current when it is added.
pub struct ComponentBuilder {
    pub components: Vec<Component>,
    pub current_part: ShortPathPart,
}

impl ComponentBuilder {
    /// An empty builder whose current region is the prefix.
    pub fn new() -> (b: Self)
        ensures
            b.components@.len() == 0,
            b.current_part == ShortPathPart::Prefix,
    {
        ComponentBuilder { components: Vec::new(), current_part: ShortPathPart::Prefix }
    }

    /// Adds a component in the current region.
    pub fn add(&mut self, component_type: ComponentType, text: String)
        ensures
            final(self).current_part == old(self).current_part,
            final(self).components@ == old(self).components@.push(
                (old(self).current_part, component_type, text),
            ),
            components_view(final(self).components@) == components_view(
                old(self).components@,
            ).push((old(self).current_part, component_type, text@)),
    {
        let part = self.current_part;
        self.components.push((part, component_type, text));
        assert(components_view(self.components@) =~= components_view(old(self).components@).push(
            (part, component_type, text@),
        ));
    }

    /// Makes `part` the current region.
    pub fn set_part(&mut self, part: ShortPathPart)
        ensures
            final(self).current_part == part,
            final(self).components == old(self).components,
    {
        self.current_part = part;
    }

    /// The components that were added, in order.
    pub fn finish(self) -> (r: Vec<Component>)
        ensures
            r == self.components,
    {
        self.components
    }
}

/// The first scalar of `segment` as a string of its own.
pub fn first_scalar(segment: &str) -> (r: String)
    ensures
        r@ == abbreviation(segment@),
{
    let chars = chars_of(segment);
    let mut out = String::new();
    if chars.len() > 0 {
        push_char(&mut out, chars[0]);
    } else {
        push_char(&mut out, '\0');
    }
    out
}

/// Whether `part` is one of `targets`.
pub fn part_in(targets: &[ShortPathPart], part: ShortPathPart) -> (r: bool)
    ensures
        r == targets@.contains(part),
{
    let mut i: usize = 0;
    while i < targets.len()
        invariant
            i <= targets.len(),
            forall|k: int| 0 <= k < i ==> targets@[k] != part,
        decreases targets.len() - i,
    {
        if targets[i] == part {
            return true;
        }
        i += 1;
    }
    false
}

impl ShortPath {
    /// Renders the path into its components: the icon and identity fields of
    /// its type, then a separator and a segment for each segment (the last
    /// `max_segments` in full, those before them cut to their first scalar),
    /// then the branch label if one is given.
    pub fn components(&self, max_segments: usize, branch: Option<String>) -> (r: Vec<Component>)
        ensures
            components_view(r@) == self@.components(max_segments as nat, option_view(branch)),
    {
        let mut builder = ComponentBuilder::new();
        assert(components_view(builder.components@) =~= Seq::<ComponentView>::empty());
        match &self.path_type {
            PathType::WorldTree { worktree, project } => {
                builder.add(ComponentType::Icon, SYMBOL_WORLD.to_owned());
                builder.add(ComponentType::Worktree, worktree.clone());
                builder.add(ComponentType::Separator, SEPARATOR_WORLD.to_owned());
                builder.add(ComponentType::Project, project.clone());
            },
            PathType::GitHub { owner, repo } => {
                builder.add(ComponentType::Icon, SYMBOL_GITHUB.to_owned());
                builder.add(ComponentType::Owner, owner.clone());
                builder.add(ComponentType::Separator, SEPARATOR.to_owned());
                builder.add(ComponentType::Repo, repo.clone());
            },
            PathType::GitHubRemote { owner, repo } => {
                builder.add(ComponentType::Icon, SYMBOL_GITHUB_INVERTED.to_owned());
                builder.add(ComponentType::Owner, owner.clone());
                builder.add(ComponentType::Separator, SEPARATOR.to_owned());
                builder.add(ComponentType::Repo, repo.clone());
            },
            PathType::Git { repo_name } => {
                builder.add(ComponentType::Icon, SYMBOL_GIT.to_owned());
                builder.add(ComponentType::Repo, repo_name.clone());
            },
            PathType::Home => {
                builder.add(ComponentType::Icon, SYMBOL_HOME.to_owned());
            },
            PathType::Regular => {
                builder.add(ComponentType::Icon, SYMBOL_ROOT.to_owned());
            },
        }
        assert(components_view(builder.components@) =~= self@.prefix_components());

        let regular = match &self.path_type {
            PathType::Regular => true,
            _ => false,
        };
        let n = self.segments.len();
        let shorten_count: usize = if n > max_segments {
            n - max_segments
        } else {
            0
        };
        builder.set_part(ShortPathPart::Infix);
        let mut i: usize = 0;
        while i < n
            invariant
                i <= n,
                n == self.segments.len(),
                shorten_count as int == self@.shorten_count(max_segments as nat),
                regular == (self@.path_type is Regular),
                builder.current_part == (if i <= shorten_count {
                    ShortPathPart::Infix
                } else {
                    ShortPathPart::Suffix
                }),
                components_view(builder.components@) == self@.prefix_components()
                    + self@.segment_components(i as int, shorten_count as int),
            decreases n - i,
        {
            let ghost before = components_view(builder.components@);
            if i >= shorten_count {
                builder.set_part(ShortPathPart::Suffix);
            }
            if i > 0 || !regular {
                builder.add(ComponentType::Separator, SEPARATOR.to_owned());
            }
            if i < shorten_count {
                builder.add(ComponentType::Shortened, first_scalar(self.segments[i].as_str()));
            } else {
                builder.add(ComponentType::Path, self.segments[i].clone());
            }
            proof {
                assert(self@.segments[i as int] == self.segments@[i as int]@);
                assert(components_view(builder.components@) =~= before + self@.segment_piece(
                    i as int,
                    shorten_count as int,
                ));
                assert(before + self@.segment_piece(i as int, shorten_count as int)
                    =~= self@.prefix_components() + self@.segment_components(
                    i + 1,
                    shorten_count as int,
                ));
            }
            i += 1;
        }

        let ghost before = components_view(builder.components@);
        if let Some(branch) = branch {
            builder.set_part(ShortPathPart::BranchPart);
            builder.add(ComponentType::Separator, SEPARATOR_BRANCH.to_owned());
            builder.add(ComponentType::Branch, branch);
        }
        assert(components_view(builder.components@) =~= before + ShortPathView::branch_components(
            option_view(branch),
        ));
        builder.finish()
    }

    /// Joins the texts of the components that fall in one of `target_types`.
    pub fn build(&self, max_segments: usize, target_types: &[ShortPathPart]) -> (r: String)
        ensures
            r@ == self@.build(max_segments as nat, target_types@),
    {
        let components = self.components(max_segments, None);
        let ghost cs = components_view(components@);
        let ghost keep = in_regions(target_types@);
        let mut result = String::new();
        let mut i: usize = 0;
        while i < components.len()
            invariant
                i <= components.len(),
                cs == components_view(components@),
                keep == in_regions(target_types@),
                result@ == texts_where(cs.take(i as int), keep),
            decreases components.len() - i,
        {
            if part_in(target_types, components[i].0) {
                result.append(components[i].2.as_str());
            }
            proof {
                assert(cs.take(i + 1).drop_last() == cs.take(i as int));
                assert(cs.take(i + 1).last() == cs[i as int]);
            }
            i += 1;
        }
        assert(cs.take(components.len() as int) == cs);
        result
    }

    /// The colored rendering of the path, with the last segment kept in full:
    /// each component between its color code and the reset code, a branch
    /// label in square brackets.
    pub fn display(&self, branch: Option<String>) -> (r: String)
        ensures
            r@ == self@.display(option_view(branch)),
    {
        let icon_color: &str = match &self.path_type {
            PathType::WorldTree { .. } => COLOR_BLUE,
            PathType::GitHub { .. } => COLOR_MAGENTA,
            PathType::GitHubRemote { .. } => COLOR_GREEN,
            PathType::Git { .. } => COLOR_GREEN,
            PathType::Home => COLOR_YELLOW,
            PathType::Regular => COLOR_GRAY,
        };
        let components = self.components(1, branch);
        let ghost cs = components_view(components@);
        let mut result = String::new();
        let mut i: usize = 0;
        while i < components.len()
            invariant
                i <= components.len(),
                cs == components_view(components@),
                icon_color@ == self@.icon_color(),
                result@ == self@.colored_all(cs.take(i as int)),
            decreases components.len() - i,
        {
            let text: &str = components[i].2.as_str();
            match components[i].1 {
                ComponentType::Icon | ComponentType::Worktree | ComponentType::Owner => {
                    result.append(icon_color);
                    result.append(text);
                },
                ComponentType::Separator => {
                    result.append(COLOR_RESET);
                    result.append(text);
                },
                ComponentType::Branch => {
                    result.append(COLOR_DIM);
                    push_char(&mut result, '[');
                    result.append(text);
                    push_char(&mut result, ']');
                },
                _ => {
                    result.append(COLOR_YELLOW);
                    result.append(text);
                },
            }
            result.append(COLOR_RESET);
            proof {
                assert(cs.take(i + 1).drop_last() == cs.take(i as int));
                assert(cs.take(i + 1).last() == cs[i as int]);
                assert(result@ =~= self@.colored_all(cs.take(i as int)) + self@.colored(
                    cs[i as int],
                ));
            }
            i += 1;
        }
        assert(cs.take(components.len() as int) == cs);
        result
    }
}

/// The pattern of a world-tree path: the worktree, then optionally the
/// project under `src/areas/<category>/`, then optionally the rest.
pub const WORLD_TREES_PATTERN: &'static str =
    "/world/trees/([^/]+)(?:/src/areas/[^/]+/([^/]+))?(?:/(.*))?";

/// The pattern of a GitHub location: the host, one of `/`, `:`, `@`, the
/// owner, the repository, and optionally `.git`.
pub const GITHUB_PATTERN: &'static str = "github\\.com[/:@]([^/]+)/([^/\\.]+)(?:\\.git)?";

/// What the `regex` crate finds when it searches `haystack` for `pattern`:
/// the text of each capture group of the leftmost match, group 0 being the
/// whole match and a group that took no part in the match being `None`; or
/// `None` where nothing matches or the pattern does not compile.
pub uninterp spec fn regex_captures(pattern: Seq<char>, haystack: Seq<char>) -> Option<
    Seq<Option<Seq<char>>>,
>;

/// The texts of a list of capture groups.
pub open spec fn groups_view(caps: Option<Vec<Option<String>>>) -> Option<Seq<Option<Seq<char>>>> {
    match caps {
        Some(groups) => Some(groups@.map_values(|g: Option<String>| option_view(g))),
        None => None,
    }
}

/// Compiles `pattern` with `regex::Regex::new`, searches `haystack` with
/// `Regex::captures`, and copies out each group with `Captures::get` and
/// `Match::as_str`. The contract gives the outcome its name and claims
/// nothing else of it.
#[verifier::external_body]
pub(crate) fn captures(pattern: &str, haystack: &str) -> (r: Option<Vec<Option<String>>>)
    ensures
        groups_view(r) == regex_captures(pattern@, haystack@),
{
    let re = regex::Regex::new(pattern).ok()?;
    let caps = re.captures(haystack)?;
    Some((0..caps.len()).map(|i| caps.get(i).map(|m| m.as_str().to_string())).collect())
}

/// The state of a left-to-right scan for segments: the segments completed so
/// far, and the scalars read since the last `/`.
pub open spec fn split_scan(s: Seq<char>) -> (Seq<Seq<char>>, Seq<char>)
    decreases s.len(),
{
    if s.len() == 0 {
        (Seq::empty(), Seq::empty())
    } else {
        let (done, current) = split_scan(s.drop_last());
        if s.last() == '/' {
            if current.len() > 0 {
                (done.push(current), Seq::empty())
            } else {
                (done, Seq::empty())
            }
        } else {
            (done, current.push(s.last()))
        }
    }
}

/// The non-empty `/`-delimited components of a text, in order.
pub open spec fn split_segments(s: Seq<char>) -> Seq<Seq<char>> {
    let (done, current) = split_scan(s);
    if current.len() > 0 {
        done.push(current)
    } else {
        done
    }
}

/// A segment: not empty, and without a `/`.
pub open spec fn is_segment(s: Seq<char>) -> bool {
    s.len() > 0 && !s.contains('/')
}

/// Every component that a scan yields is a segment, and so is what it holds
/// of the next one, unless that is empty.
pub proof fn lemma_split_scan_segments(s: Seq<char>)
    ensures
        forall|i: int| 0 <= i < split_scan(s).0.len() ==> is_segment(#[trigger] split_scan(s).0[i]),
        !split_scan(s).1.contains('/'),
    decreases s.len(),
{
    if s.len() > 0 {
        lemma_split_scan_segments(s.drop_last());
        let (done, current) = split_scan(s.drop_last());
        if s.last() != '/' {
            let next = current.push(s.last());
            assert forall|k: int| 0 <= k < next.len() implies next[k] != '/' by {
                if k < current.len() {
                    assert(current.contains(current[k]));
                }
            }
        }
    }
}

/// Splitting yields segments only: none is empty and none holds a `/`.
pub proof fn lemma_split_segments(s: Seq<char>)
    ensures
        forall|i: int|
            0 <= i < split_segments(s).len() ==> is_segment(#[trigger] split_segments(s)[i]),
{
    lemma_split_scan_segments(s);
}

/// The non-empty `/`-delimited components of `chars[from..]`.
pub fn split_from(chars: &Vec<char>, from: usize) -> (r: Vec<String>)
    requires
        from <= chars.len(),
    ensures
        strings_view(r@) == split_segments(chars@.skip(from as int)),
{
    let ghost s = chars@.skip(from as int);
    let mut out: Vec<String> = Vec::new();
    let mut start: usize = from;
    let mut i: usize = from;
    assert(s.take(0) =~= Seq::<char>::empty());
    assert(strings_view(out@) =~= Seq::<Seq<char>>::empty());
    assert(chars@.subrange(start as int, i as int) =~= Seq::<char>::empty());
    while i < chars.len()
        invariant
            from <= start <= i <= chars.len(),
            s == chars@.skip(from as int),
            split_scan(s.take(i - from)) == (
                strings_view(out@),
                chars@.subrange(start as int, i as int),
            ),
        decreases chars.len() - i,
    {
        let ghost done = strings_view(out@);
        let ghost current = chars@.subrange(start as int, i as int);
        proof {
            assert(s.take(i + 1 - from).drop_last() == s.take(i - from));
            assert(s.take(i + 1 - from).last() == chars@[i as int]);
        }
        if chars[i] == '/' {
            if i > start {
                out.push(string_from_range(chars, start, i));
                assert(strings_view(out@) =~= done.push(current));
            }
            start = i + 1;
            assert(chars@.subrange(start as int, i + 1) =~= Seq::<char>::empty());
        } else {
            assert(chars@.subrange(start as int, i + 1) =~= current.push(chars@[i as int]));
        }
        i += 1;
    }
    assert(s.take(chars.len() - from) == s);
    if i > start {
        let ghost done = strings_view(out@);
        out.push(string_from_range(chars, start, i));
        assert(strings_view(out@) =~= done.push(chars@.subrange(start as int, i as int)));
    }
    out
}

/// The non-empty `/`-delimited components of a text.
pub fn split_path(s: &str) -> (r: Vec<String>)
    ensures
        strings_view(r@) == split_segments(s@),
{
    let chars = chars_of(s);
    assert(chars@.skip(0) == chars@);
    split_from(&chars, 0)
}

/// Group `i` of a list of capture groups: `None` where there is no such
/// group or it took no part in the match.
pub open spec fn group(groups: Seq<Option<Seq<char>>>, i: int) -> Option<Seq<char>> {
    if 0 <= i < groups.len() {
        groups[i]
    } else {
        None
    }
}

/// Group `i`, or the empty text in its place.
pub open spec fn group_or_empty(groups: Seq<Option<Seq<char>>>, i: int) -> Seq<char> {
    match group(groups, i) {
        Some(g) => g,
        None => Seq::empty(),
    }
}

/// The view of an optional short path.
pub open spec fn short_path_view(p: Option<ShortPath>) -> Option<ShortPathView> {
    match p {
        Some(p) => Some(p@),
        None => None,
    }
}

/// The world-tree classification that a match of [`WORLD_TREES_PATTERN`]
/// stands for: group 1 is the worktree, group 2 the project (empty where the
/// path has no project folder), and group 3 splits into the segments.
pub open spec fn world_tree_of(caps: Option<Seq<Option<Seq<char>>>>) -> Option<ShortPathView> {
    match caps {
        Some(groups) => match group(groups, 1) {
            Some(worktree) => Some(
                ShortPathView {
                    path_type: PathKind::WorldTree { worktree, project: group_or_empty(groups, 2) },
                    segments: split_segments(group_or_empty(groups, 3)),
                },
            ),
            None => None,
        },
        None => None,
    }
}

/// The owner and the repository that a match of [`GITHUB_PATTERN`] stands
/// for: groups 1 and 2.
pub open spec fn github_of(caps: Option<Seq<Option<Seq<char>>>>) -> Option<(Seq<char>, Seq<char>)> {
    match caps {
        Some(groups) => match (group(groups, 1), group(groups, 2)) {
            (Some(owner), Some(repo)) => Some((owner, repo)),
            _ => None,
        },
        None => None,
    }
}

/// The owner and repository named in `input`, if it holds the GitHub host
/// marker followed by both.
pub open spec fn github_info(input: Seq<char>) -> Option<(Seq<char>, Seq<char>)> {
    github_of(regex_captures(GITHUB_PATTERN@, input))
}

/// The view of an optional owner and repository.
pub open spec fn pair_view(p: Option<(String, String)>) -> Option<(Seq<char>, Seq<char>)> {
    match p {
        Some((a, b)) => Some((a@, b@)),
        None => None,
    }
}

/// A copy of group `i`, or `None` where there is no such group or it took no
/// part in the match.
pub fn copy_group(groups: &Vec<Option<String>>, i: usize) -> (r: Option<String>)
    ensures
        option_view(r) == group(groups@.map_values(|g: Option<String>| option_view(g)), i as int),
{
    if i < groups.len() {
        match &groups[i] {
            Some(g) => Some(g.clone()),
            None => None,
        }
    } else {
        None
    }
}

/// A copy of group `i`, or the empty string in its place.
pub fn copy_group_or_empty(groups: &Vec<Option<String>>, i: usize) -> (r: String)
    ensures
        r@ == group_or_empty(groups@.map_values(|g: Option<String>| option_view(g)), i as int),
{
    match copy_group(groups, i) {
        Some(g) => g,
        None => String::new(),
    }
}

/// Turns the capture groups of a world-tree match into the classification.
pub fn world_tree_from_captures(caps: Option<Vec<Option<String>>>) -> (r: Option<ShortPath>)
    ensures
        short_path_view(r) == world_tree_of(groups_view(caps)),
        r matches Some(p) ==> p@.wf(),
{
    match caps {
        Some(groups) => {
            match copy_group(&groups, 1) {
                Some(worktree) => {
                    let project = copy_group_or_empty(&groups, 2);
                    let remaining = copy_group_or_empty(&groups, 3);
                    let segments = split_path(remaining.as_str());
                    proof {
                        lemma_split_segments(remaining@);
                    }
                    Some(ShortPath { path_type: PathType::WorldTree { worktree, project }, segments })
                },
                None => None,
            }
        },
        None => None,
    }
}

/// Turns the capture groups of a GitHub match into owner and repository.
pub fn github_from_captures(caps: Option<Vec<Option<String>>>) -> (r: Option<(String, String)>)
    ensures
        pair_view(r) == github_of(groups_view(caps)),
{
    match caps {
        Some(groups) => {
            match copy_group(&groups, 1) {
                Some(owner) => match copy_group(&groups, 2) {
                    Some(repo) => Some((owner, repo)),
                    None => None,
                },
                None => None,
            }
        },
        None => None,
    }
}

/// Classifies a path that lies in a world tree: `None` for any other path.
pub fn check_world_tree_path(path_str: &str) -> (r: Option<ShortPath>)
    ensures
        short_path_view(r) == world_tree_of(regex_captures(WORLD_TREES_PATTERN@, path_str@)),
        r matches Some(p) ==> p@.wf(),
{
    world_tree_from_captures(captures(WORLD_TREES_PATTERN, path_str))
}

/// Finds the owner and the repository in a path or a URL that names GitHub.
/// Segments after the repository are ignored.
pub fn extract_github_info(input: &str) -> (r: Option<(String, String)>)
    ensures
        pair_view(r) == github_info(input@),
{
    github_from_captures(captures(GITHUB_PATTERN, input))
}

/// The regular classification: every segment of the path.
pub open spec fn regular_path_of(path: Seq<char>) -> ShortPathView {
    ShortPathView { path_type: PathKind::Regular, segments: split_segments(path) }
}

/// The home classification: `None` unless the path textually begins with
/// the home directory; the segments are those of what follows it.
pub open spec fn home_path_of(path: Seq<char>, home: Option<Seq<char>>) -> Option<ShortPathView> {
    match home {
        Some(home) => if home.is_prefix_of(path) {
            Some(
                ShortPathView {
                    path_type: PathKind::Home,
                    segments: split_segments(path.skip(home.len() as int)),
                },
            )
        } else {
            None
        },
        None => None,
    }
}

/// Classifies a path as regular. This never fails.
pub fn create_regular_path(path_str: &str) -> (r: ShortPath)
    ensures
        r@ == regular_path_of(path_str@),
        r@.wf(),
{
    proof {
        lemma_split_segments(path_str@);
    }
    ShortPath { path_type: PathType::Regular, segments: split_path(path_str) }
}

/// Classifies a path below the user's home directory: `None` where no home
/// directory is known or the path does not begin with it.
pub fn check_home_path(path_str: &str, home: Option<&str>) -> (r: Option<ShortPath>)
    ensures
        short_path_view(r) == home_path_of(
            path_str@,
            match home {
                Some(h) => Some(h@),
                None => None,
            },
        ),
        r matches Some(p) ==> p@.wf(),
{
    match home {
        Some(home_str) => {
            let path = chars_of(path_str);
            let home_chars = chars_of(home_str);
            if starts_with(&path, &home_chars) {
                let segments = split_from(&path, home_chars.len());
                proof {
                    lemma_split_segments(path_str@.skip(home_str@.len() as int));
                }
                Some(ShortPath { path_type: PathType::Home, segments })
            } else {
                None
            }
        },
        None => None,
    }
}

/// What is known of the repository that encloses a path: the root of its
/// work tree and, where it has one, the URL of its remote named "origin".
#[derive(Debug, Clone, PartialEq)]
pub struct RepoInfo {
    pub root: String,
    pub origin_url: Option<String>,
}

/// What a [`RepoInfo`] holds, as plain sequences.
pub struct RepoInfoView {
    pub root: Seq<char>,
    pub origin_url: Option<Seq<char>>,
}

impl View for RepoInfo {
    type V = RepoInfoView;

    open spec fn view(&self) -> RepoInfoView {
        RepoInfoView { root: self.root@, origin_url: option_view(self.origin_url) }
    }
}

/// What surrounds a path on the machine: the repository that encloses it, if
/// one does, and the user's home directory, if it is known.
#[derive(Debug, Clone, PartialEq)]
pub struct PathContext {
    pub repo: Option<RepoInfo>,
    pub home: Option<String>,
}

/// What a [`PathContext`] holds, as plain sequences.
pub struct PathContextView {
    pub repo: Option<RepoInfoView>,
    pub home: Option<Seq<char>>,
}

impl View for PathContext {
    type V = PathContextView;

    open spec fn view(&self) -> PathContextView {
        PathContextView {
            repo: match self.repo {
                Some(r) => Some(r@),
                None => None,
            },
            home: option_view(self.home),
        }
    }
}

/// The last segment of a path, or the empty text where it has none.
pub open spec fn last_segment(path: Seq<char>) -> Seq<char> {
    let segments = split_segments(path);
    if segments.len() > 0 {
        segments.last()
    } else {
        Seq::empty()
    }
}

/// The type of a path inside a repository: `GitHub` where the root itself
/// names owner and repository, else `GitHubRemote` where the origin URL
/// does, else `Git` with the name of the root directory.
pub open spec fn git_kind_of(
    root_info: Option<(Seq<char>, Seq<char>)>,
    origin_info: Option<(Seq<char>, Seq<char>)>,
    root_name: Seq<char>,
) -> PathKind {
    match root_info {
        Some((owner, repo)) => PathKind::GitHub { owner, repo },
        None => match origin_info {
            Some((owner, repo)) => PathKind::GitHubRemote { owner, repo },
            None => PathKind::Git { repo_name: root_name },
        },
    }
}

/// What the origin URL of a repository says of owner and repository.
pub open spec fn origin_info(origin_url: Option<Seq<char>>) -> Option<(Seq<char>, Seq<char>)> {
    match origin_url {
        Some(url) => github_info(url),
        None => None,
    }
}

/// The classification of a path inside a repository: `None` unless the
/// segments of the root begin those of the path; the segments are those
/// strictly below the root.
pub open spec fn git_path_of(path: Seq<char>, repo: RepoInfoView) -> Option<ShortPathView> {
    let root_segments = split_segments(repo.root);
    let path_segments = split_segments(path);
    if root_segments.is_prefix_of(path_segments) {
        Some(
            ShortPathView {
                path_type: git_kind_of(
                    github_info(repo.root),
                    origin_info(repo.origin_url),
                    last_segment(repo.root),
                ),
                segments: path_segments.skip(root_segments.len() as int),
            },
        )
    } else {
        None
    }
}

/// The classification of a path: world tree first, then repository, then
/// home directory, then regular.
pub open spec fn classify(path: Seq<char>, context: PathContextView) -> ShortPathView {
    match world_tree_of(regex_captures(WORLD_TREES_PATTERN@, path)) {
        Some(p) => p,
        None => {
            let in_repo = match context.repo {
                Some(repo) => git_path_of(path, repo),
                None => None,
            };
            match in_repo {
                Some(p) => p,
                None => match home_path_of(path, context.home) {
                    Some(p) => p,
                    None => regular_path_of(path),
                },
            }
        },
    }
}

/// Picks the type of a path inside a repository from what the root and the
/// origin URL say of owner and repository.
pub fn git_path_type(
    root_info: Option<(String, String)>,
    origin_info: Option<(String, String)>,
    root_name: String,
) -> (r: PathType)
    ensures
        r@ == git_kind_of(pair_view(root_info), pair_view(origin_info), root_name@),
{
    match root_info {
        Some((owner, repo)) => PathType::GitHub { owner, repo },
        None => match origin_info {
            Some((owner, repo)) => PathType::GitHubRemote { owner, repo },
            None => PathType::Git { repo_name: root_name },
        },
    }
}

/// Whether the strings of `prefix` begin those of `all`.
pub fn segments_start_with(all: &Vec<String>, prefix: &Vec<String>) -> (r: bool)
    ensures
        r == strings_view(prefix@).is_prefix_of(strings_view(all@)),
{
    if prefix.len() > all.len() {
        return false;
    }
    let mut i: usize = 0;
    while i < prefix.len()
        invariant
            i <= prefix.len() <= all.len(),
            forall|k: int| 0 <= k < i ==> all@[k]@ == prefix@[k]@,
        decreases prefix.len() - i,
    {
        if all[i] != prefix[i] {
            assert(strings_view(all@)[i as int] != strings_view(prefix@)[i as int]);
            return false;
        }
        i += 1;
    }
    assert(strings_view(prefix@) =~= strings_view(all@).subrange(0, prefix@.len() as int));
    true
}

/// Classifies a path that lies in the work tree of `repo`: `None` where it
/// does not.
pub fn check_git_path(path_str: &str, repo: &RepoInfo) -> (r: Option<ShortPath>)
    ensures
        short_path_view(r) == git_path_of(path_str@, repo@),
        r matches Some(p) ==> p@.wf(),
{
    let root_segments = split_path(repo.root.as_str());
    let path_segments = split_path(path_str);
    if !segments_start_with(&path_segments, &root_segments) {
        return None;
    }
    let mut segments: Vec<String> = Vec::new();
    let mut i: usize = root_segments.len();
    assert(strings_view(segments@) =~= strings_view(path_segments@).subrange(
        root_segments.len() as int,
        i as int,
    ));
    while i < path_segments.len()
        invariant
            root_segments.len() <= i <= path_segments.len(),
            strings_view(segments@) == strings_view(path_segments@).subrange(
                root_segments.len() as int,
                i as int,
            ),
        decreases path_segments.len() - i,
    {
        let ghost before = strings_view(segments@);
        segments.push(path_segments[i].clone());
        assert(strings_view(segments@) =~= before.push(path_segments@[i as int]@));
        assert(strings_view(segments@) =~= strings_view(path_segments@).subrange(
            root_segments.len() as int,
            i + 1,
        ));
        i += 1;
    }
    proof {
        lemma_split_segments(path_str@);
        assert(strings_view(path_segments@).subrange(
            root_segments.len() as int,
            path_segments.len() as int,
        ) =~= split_segments(path_str@).skip(root_segments.len() as int));
    }
    let root_info = extract_github_info(repo.root.as_str());
    let from_origin = match (&root_info, &repo.origin_url) {
        (None, Some(url)) => extract_github_info(url.as_str()),
        _ => None,
    };
    let root_name = if root_segments.len() > 0 {
        root_segments[root_segments.len() - 1].clone()
    } else {
        String::new()
    };
    assert(root_name@ == last_segment(repo.root@));
    Some(ShortPath { path_type: git_path_type(root_info, from_origin, root_name), segments })
}

/// Whether the origin URL of a repository with this root has any say in
/// the classification: it has none where the root itself names GitHub.
pub fn needs_origin_url(root: &str) -> (r: bool)
    ensures
        r == (github_info(root@) is None),
{
    extract_github_info(root).is_none()
}

/// Classifies a path. The rules apply in order and the first that fits
/// decides: world tree, repository, home directory, regular. Every path gets
/// a classification, and the same path in the same surroundings always the
/// same one.
pub fn shorten_path(path: &str, context: &PathContext) -> (r: ShortPath)
    ensures
        r@ == classify(path@, context@),
        r@.wf(),
{
    if let Some(world_path) = check_world_tree_path(path) {
        return world_path;
    }
    if let Some(repo) = &context.repo {
        if let Some(git_path) = check_git_path(path, repo) {
            return git_path;
        }
    }
    let home: Option<&str> = match &context.home {
        Some(h) => Some(h.as_str()),
        None => None,
    };
    if let Some(home_path) = check_home_path(path, home) {
        return home_path;
    }
    create_regular_path(path)
}

/// A copy of a list of strings.
pub fn copy_strings(strings: &Vec<String>) -> (r: Vec<String>)
    ensures
        strings_view(r@) == strings_view(strings@),
{
    let mut out: Vec<String> = Vec::new();
    let mut i: usize = 0;
    assert(strings_view(out@) =~= strings_view(strings@).take(0));
    while i < strings.len()
        invariant
            i <= strings.len(),
            strings_view(out@) == strings_view(strings@).take(i as int),
        decreases strings.len() - i,
    {
        let ghost before = strings_view(out@);
        out.push(strings[i].clone());
        assert(strings_view(out@) =~= before.push(strings@[i as int]@));
        assert(strings_view(out@) =~= strings_view(strings@).take(i + 1));
        i += 1;
    }
    assert(strings_view(strings@).take(strings.len() as int) == strings_view(strings@));
    out
}

impl PathType {
    /// A copy that holds the same texts.
    pub fn duplicate(&self) -> (r: Self)
        ensures
            r@ == self@,
    {
        match self {
            PathType::WorldTree { worktree, project } => PathType::WorldTree {
                worktree: worktree.clone(),
                project: project.clone(),
            },
            PathType::GitHub { owner, repo } => PathType::GitHub {
                owner: owner.clone(),
                repo: repo.clone(),
            },
            PathType::GitHubRemote { owner, repo } => PathType::GitHubRemote {
                owner: owner.clone(),
                repo: repo.clone(),
            },
            PathType::Git { repo_name } => PathType::Git { repo_name: repo_name.clone() },
            PathType::Home => PathType::Home,
            PathType::Regular => PathType::Regular,
        }
    }
}

impl ShortPath {
    /// A copy that holds the same type and segments.
    pub fn duplicate(&self) -> (r: Self)
        ensures
            r@ == self@,
    {
        ShortPath { path_type: self.path_type.duplicate(), segments: copy_strings(&self.segments) }
    }
}

/// The segments with a slash between each two.
pub open spec fn join_segments(segments: Seq<Seq<char>>) -> Seq<char>
    decreases segments.len(),
{
    if segments.len() == 0 {
        Seq::empty()
    } else if segments.len() == 1 {
        segments[0]
    } else {
        join_segments(segments.drop_last()) + seq!['/'] + segments.last()
    }
}

/// A path in canonical form: it starts at the root, has no empty component,
/// and ends in no slash unless it is the root itself.
pub open spec fn is_canonical(path: Seq<char>) -> bool {
    &&& path.len() > 0
    &&& path[0] == '/'
    &&& path.len() > 1 ==> path.last() != '/'
    &&& forall|i: int, j: int|
        0 <= i && j == i + 1 && j < path.len() ==> !(#[trigger] path[i] == '/' && #[trigger] path[j]
            == '/')
}

/// The text of a list of components is that of its front part, then that
/// of its back part.
pub proof fn lemma_texts_where_concat(
    front: Seq<ComponentView>,
    back: Seq<ComponentView>,
    keep: spec_fn(ComponentView) -> bool,
)
    ensures
        texts_where(front + back, keep) == texts_where(front, keep) + texts_where(back, keep),
    decreases back.len(),
{
    if back.len() == 0 {
        assert(front + back == front);
    } else {
        lemma_texts_where_concat(front, back.drop_last(), keep);
        assert((front + back).drop_last() == front + back.drop_last());
    }
}

/// The text of one component: its own text where it is kept.
pub proof fn lemma_texts_where_one(c: ComponentView, keep: spec_fn(ComponentView) -> bool)
    ensures
        texts_where(seq![c], keep) == if keep(c) {
            c.2
        } else {
            Seq::<char>::empty()
        },
{
    assert(seq![c].drop_last() == Seq::<ComponentView>::empty());
    assert(texts_where(Seq::<ComponentView>::empty(), keep) == Seq::<char>::empty());
}

/// Joining with one more segment: the segment alone, or a slash and the
/// segment behind what was joined before.
pub proof fn lemma_join_push(segments: Seq<Seq<char>>, segment: Seq<char>)
    ensures
        join_segments(segments.push(segment)) == if segments.len() == 0 {
            segment
        } else {
            join_segments(segments) + seq!['/'] + segment
        },
{
    assert(segments.push(segment).drop_last() == segments);
}

/// The infix and suffix texts of the first `upto` segments of a regular
/// path are together those segments joined by slashes, as long as every
/// abbreviated segment is one scalar long.
proof fn lemma_regular_segments(sp: ShortPathView, shorten_count: int, upto: int)
    requires
        sp.path_type is Regular,
        0 <= upto <= sp.segments.len(),
        forall|i: int|
            0 <= i < shorten_count && i < sp.segments.len() ==> (#[trigger] sp.segments[i]).len() == 1,
    ensures
        texts_where(
            sp.segment_components(upto, shorten_count),
            in_regions(seq![ShortPathPart::Infix]),
        ) + texts_where(
            sp.segment_components(upto, shorten_count),
            in_regions(seq![ShortPathPart::Suffix]),
        ) == join_segments(sp.segments.take(upto)),
        upto <= shorten_count ==> texts_where(
            sp.segment_components(upto, shorten_count),
            in_regions(seq![ShortPathPart::Suffix]),
        ) == Seq::<char>::empty(),
    decreases upto,
{
    let infix = in_regions(seq![ShortPathPart::Infix]);
    let suffix = in_regions(seq![ShortPathPart::Suffix]);
    reveal_strlit("/");
    assert(SEPARATOR@ =~= seq!['/']);
    if upto == 0 {
        assert(sp.segments.take(0) =~= Seq::<Seq<char>>::empty());
    } else {
        let k = upto - 1;
        lemma_regular_segments(sp, shorten_count, k);
        let before = sp.segment_components(k, shorten_count);
        let piece = sp.segment_piece(k, shorten_count);
        lemma_texts_where_concat(before, piece, infix);
        lemma_texts_where_concat(before, piece, suffix);
        let segment = sp.segments[k];
        let region = if k < shorten_count {
            ShortPathPart::Infix
        } else {
            ShortPathPart::Suffix
        };
        let separator: ComponentView = (region, ComponentType::Separator, SEPARATOR@);
        let body: ComponentView = if k < shorten_count {
            (region, ComponentType::Shortened, abbreviation(segment))
        } else {
            (region, ComponentType::Path, segment)
        };
        assert(seq![ShortPathPart::Infix][0] == ShortPathPart::Infix);
        assert(seq![ShortPathPart::Suffix][0] == ShortPathPart::Suffix);
        assert(infix(separator) == (region == ShortPathPart::Infix));
        assert(suffix(separator) == (region == ShortPathPart::Suffix));
        assert(infix(body) == (region == ShortPathPart::Infix));
        assert(suffix(body) == (region == ShortPathPart::Suffix));
        lemma_texts_where_one(separator, infix);
        lemma_texts_where_one(separator, suffix);
        lemma_texts_where_one(body, infix);
        lemma_texts_where_one(body, suffix);
        if k > 0 {
            assert(piece =~= seq![separator] + seq![body]);
            lemma_texts_where_concat(seq![separator], seq![body], infix);
            lemma_texts_where_concat(seq![separator], seq![body], suffix);
        } else {
            assert(piece =~= seq![body]);
        }
        if k < shorten_count {
            assert(abbreviation(segment) =~= segment);
        }
        assert(sp.segments.take(upto) =~= sp.segments.take(k).push(segment));
        lemma_join_push(sp.segments.take(k), segment);
        let i0 = texts_where(before, infix);
        let s0 = texts_where(before, suffix);
        if k < shorten_count {
            assert(s0 == Seq::<char>::empty());
            if k > 0 {
                assert(i0 + seq!['/'] + segment + Seq::<char>::empty() =~= (i0 + s0) + seq!['/']
                    + segment);
            } else {
                assert(i0 + segment + Seq::<char>::empty() =~= segment);
            }
        } else {
            if k > 0 {
                assert(i0 + (s0 + (seq!['/'] + segment)) =~= (i0 + s0) + seq!['/'] + segment);
                assert(i0 + Seq::<char>::empty() =~= i0);
            } else {
                assert(i0 + (s0 + segment) =~= segment);
            }
        }
    }
}

/// Regular-path reconstruction: whatever number of segments is kept in
/// full, the infix text and the suffix text of a regular path are together
/// its segments joined by slashes, provided that every segment that is
/// abbreviated is one scalar long.
pub proof fn lemma_regular_infix_suffix(sp: ShortPathView, max_keep: nat)
    requires
        sp.path_type is Regular,
        forall|i: int|
            0 <= i < sp.shorten_count(max_keep) ==> (#[trigger] sp.segments[i]).len() == 1,
    ensures
        sp.build(max_keep, seq![ShortPathPart::Infix]) + sp.build(
            max_keep,
            seq![ShortPathPart::Suffix],
        ) == join_segments(sp.segments),
        sp.build(max_keep, seq![ShortPathPart::Prefix]) == seq!['/'],
{
    let infix = in_regions(seq![ShortPathPart::Infix]);
    let suffix = in_regions(seq![ShortPathPart::Suffix]);
    let prefix = in_regions(seq![ShortPathPart::Prefix]);
    let n = sp.segments.len() as int;
    let sc = sp.shorten_count(max_keep);
    let icon: ComponentView = (ShortPathPart::Prefix, ComponentType::Icon, SYMBOL_ROOT@);
    let segments = sp.segment_components(n, sc);
    reveal_strlit("/");
    assert(SYMBOL_ROOT@ =~= seq!['/']);
    assert(sp.prefix_components() =~= seq![icon]);
    assert(sp.components(max_keep, None) =~= seq![icon] + segments);
    assert(seq![ShortPathPart::Infix][0] == ShortPathPart::Infix);
    assert(seq![ShortPathPart::Suffix][0] == ShortPathPart::Suffix);
    assert(seq![ShortPathPart::Prefix][0] == ShortPathPart::Prefix);
    lemma_texts_where_one(icon, infix);
    lemma_texts_where_one(icon, suffix);
    lemma_texts_where_one(icon, prefix);
    lemma_texts_where_concat(seq![icon], segments, infix);
    lemma_texts_where_concat(seq![icon], segments, suffix);
    lemma_texts_where_concat(seq![icon], segments, prefix);
    lemma_regular_segments(sp, sc, n);
    assert(sp.segments.take(n) == sp.segments);
    lemma_no_prefix_in_segments(sp, sc, n);
    assert(Seq::<char>::empty() + texts_where(segments, infix) =~= texts_where(segments, infix));
    assert(Seq::<char>::empty() + texts_where(segments, suffix) =~= texts_where(segments, suffix));
    assert(seq!['/'] + Seq::<char>::empty() =~= seq!['/']);
}

/// No component of a segment falls in the prefix.
proof fn lemma_no_prefix_in_segments(sp: ShortPathView, shorten_count: int, upto: int)
    requires
        0 <= upto,
    ensures
        texts_where(
            sp.segment_components(upto, shorten_count),
            in_regions(seq![ShortPathPart::Prefix]),
        ) == Seq::<char>::empty(),
    decreases upto,
{
    let prefix = in_regions(seq![ShortPathPart::Prefix]);
    if upto > 0 {
        let k = upto - 1;
        lemma_no_prefix_in_segments(sp, shorten_count, k);
        let before = sp.segment_components(k, shorten_count);
        let piece = sp.segment_piece(k, shorten_count);
        lemma_texts_where_concat(before, piece, prefix);
        assert forall|i: int| 0 <= i < piece.len() implies !prefix(#[trigger] piece[i]) by {
            assert(seq![ShortPathPart::Prefix].len() == 1);
            if seq![ShortPathPart::Prefix].contains(piece[i].0) {
                let w = choose|w: int|
                    0 <= w < 1 && seq![ShortPathPart::Prefix][w] == piece[i].0;
                assert(seq![ShortPathPart::Prefix][w] == ShortPathPart::Prefix);
            }
        }
        lemma_texts_where_none(piece, prefix);
        assert(Seq::<char>::empty() + Seq::<char>::empty() =~= Seq::<char>::empty());
    }
}

/// Components of which none is kept spell the empty text.
pub proof fn lemma_texts_where_none(cs: Seq<ComponentView>, keep: spec_fn(ComponentView) -> bool)
    requires
        forall|i: int| 0 <= i < cs.len() ==> !keep(#[trigger] cs[i]),
    ensures
        texts_where(cs, keep) == Seq::<char>::empty(),
    decreases cs.len(),
{
    if cs.len() > 0 {
        assert forall|i: int| 0 <= i < cs.drop_last().len() implies !keep(
            #[trigger] cs.drop_last()[i],
        ) by {
            assert(cs.drop_last()[i] == cs[i]);
        }
        lemma_texts_where_none(cs.drop_last(), keep);
        assert(!keep(cs[cs.len() - 1]));
    }
}

/// What a scan has read of a canonical path, rebuilt from its state: the
/// root slash, the completed segments joined, and then either the segment
/// that is being read or, right behind a slash, that slash.
proof fn lemma_split_scan_canonical(s: Seq<char>)
    requires
        s.len() > 0,
        s[0] == '/',
        forall|i: int, j: int|
            0 <= i && j == i + 1 && j < s.len() ==> !(#[trigger] s[i] == '/' && #[trigger] s[j] == '/'),
    ensures
        s.last() == '/' ==> split_scan(s).1.len() == 0 && s == seq!['/'] + join_segments(
            split_scan(s).0,
        ) + if split_scan(s).0.len() > 0 {
            seq!['/']
        } else {
            Seq::<char>::empty()
        },
        s.last() != '/' ==> split_scan(s).1.len() > 0 && s == seq!['/'] + join_segments(
            split_scan(s).0.push(split_scan(s).1),
        ),
    decreases s.len(),
{
    let front = s.drop_last();
    let c = s.last();
    assert(s =~= front.push(c));
    if front.len() == 0 {
        assert(split_scan(front) == (Seq::<Seq<char>>::empty(), Seq::<char>::empty()));
        assert(c == '/');
        assert(join_segments(Seq::<Seq<char>>::empty()) == Seq::<char>::empty());
        assert(s =~= seq!['/'] + Seq::<char>::empty() + Seq::<char>::empty());
    } else {
        assert(front[0] == s[0]);
        assert forall|i: int, j: int| 0 <= i && j == i + 1 && j < front.len() implies !(
        #[trigger] front[i] == '/' && #[trigger] front[j] == '/') by {
            assert(front[i] == s[i]);
            assert(front[j] == s[j]);
        }
        lemma_split_scan_canonical(front);
        let (done, current) = split_scan(front);
        assert(front.last() == s[s.len() - 2]);
        if c == '/' {
            assert(!(s[s.len() - 2] == '/' && s[s.len() - 1] == '/'));
            assert(front.last() != '/');
            assert(split_scan(s) == (done.push(current), Seq::<char>::empty()));
        } else if front.last() == '/' {
            assert(current.len() == 0);
            assert(split_scan(s) == (done, current.push(c)));
            assert(current.push(c) =~= seq![c]);
            lemma_join_push(done, seq![c]);
            if done.len() > 0 {
                assert(s =~= seq!['/'] + (join_segments(done) + seq!['/'] + seq![c]));
            } else {
                assert(join_segments(done) == Seq::<char>::empty());
                assert(s =~= seq!['/'] + seq![c]);
            }
        } else {
            assert(split_scan(s) == (done, current.push(c)));
            lemma_join_push(done, current);
            lemma_join_push(done, current.push(c));
            if done.len() > 0 {
                assert(s =~= seq!['/'] + (join_segments(done) + seq!['/'] + current.push(c)));
            } else {
                assert(s =~= seq!['/'] + current.push(c));
            }
        }
    }
}

/// The segments of a canonical path, joined by slashes behind the root
/// slash, are the path.
pub proof fn lemma_join_split_canonical(path: Seq<char>)
    requires
        is_canonical(path),
    ensures
        seq!['/'] + join_segments(split_segments(path)) == path,
{
    lemma_split_scan_canonical(path);
    if path.len() == 1 {
        assert(path.drop_last() =~= Seq::<char>::empty());
        assert(split_scan(path).0 =~= Seq::<Seq<char>>::empty());
    }
}

/// Regular-path reconstruction, from the path: the prefix, infix and
/// suffix texts of the regular classification of a canonical path are
/// together that path, and infix and suffix together are the path behind
/// its root slash, whatever number of segments is kept in full, provided
/// that every segment that is abbreviated is one scalar long.
pub proof fn lemma_regular_path_reconstruction(path: Seq<char>, max_keep: nat)
    requires
        is_canonical(path),
        forall|i: int|
            0 <= i < regular_path_of(path).shorten_count(max_keep) ==> (
            #[trigger] split_segments(path)[i]).len() == 1,
    ensures
        regular_path_of(path).build(max_keep, seq![ShortPathPart::Infix]) + regular_path_of(
            path,
        ).build(max_keep, seq![ShortPathPart::Suffix]) == path.skip(1),
        regular_path_of(path).build(max_keep, seq![ShortPathPart::Prefix]) + regular_path_of(
            path,
        ).build(max_keep, seq![ShortPathPart::Infix]) + regular_path_of(path).build(
            max_keep,
            seq![ShortPathPart::Suffix],
        ) == path,
{
    let sp = regular_path_of(path);
    lemma_regular_infix_suffix(sp, max_keep);
    lemma_join_split_canonical(path);
    let joined = join_segments(split_segments(path));
    assert((seq!['/'] + joined).skip(1) =~= joined);
    let infix = sp.build(max_keep, seq![ShortPathPart::Infix]);
    let suffix = sp.build(max_keep, seq![ShortPathPart::Suffix]);
    assert(seq!['/'] + infix + suffix =~= seq!['/'] + (infix + suffix));
}

} // verus!
