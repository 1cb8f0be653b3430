//! The release-notes runner: its configuration and which merge tag the
//! notes are generated for.

use vstd::prelude::*;
use vstd::string::*;
use crate::text::{concat2, concat3, has_prefix, starts_with, str_eq};

verus! {

/// Configuration of the release-notes runner.
#[derive(Debug, Clone)]
pub struct ReleaseNotesRunnerConfig {
    pub organization: String,
    pub project: String,
    pub repository: String,
    pub pat: String,
    pub dev_branch: String,
    pub tag_prefix: String,
    pub from_version: Option<String>,
    pub to_version: Option<String>,
    /// The name of the output format of the notes.
    pub output_format: String,
    pub grouped: bool,
    pub include_prs: bool,
    pub copy_to_clipboard: bool,
    pub no_cache: bool,
    pub max_concurrent_network: usize,
    pub max_concurrent_processing: usize,
}

/// The settings of a run merged from the config file, the git remote, the
/// environment and the command line; any may be missing.
#[derive(Debug, Clone)]
pub struct MergedSettings {
    pub organization: Option<String>,
    pub project: Option<String>,
    pub pat: Option<String>,
    pub repository: Option<String>,
    pub dev_branch: Option<String>,
    pub tag_prefix: Option<String>,
    pub max_concurrent_network: Option<usize>,
    pub max_concurrent_processing: Option<usize>,
}

/// The release-notes options of the command line.
#[derive(Debug, Clone)]
pub struct ReleaseNotesArgs {
    /// Version to start from.
    pub from: Option<String>,
    /// Version to end at.
    pub to: Option<String>,
    /// Name of the output format.
    pub output: String,
    /// Whether to group the notes by category.
    pub group: bool,
    /// Whether to list the PRs.
    pub include_prs: bool,
    /// Whether to copy the notes to the clipboard.
    pub copy: bool,
    /// Whether to bypass the cache.
    pub no_cache: bool,
}

/// The value of an optional string, or a default.
pub open spec fn str_or(o: Option<String>, d: Seq<char>) -> Seq<char> {
    match o {
        Some(s) => s@,
        None => d,
    }
}

/// The tag of a version: the input when it already carries the prefix,
/// otherwise the prefix followed by the input.
pub open spec fn normalized_tag(prefix: Seq<char>, input: Seq<char>) -> Seq<char> {
    if has_prefix(input, prefix) {
        input
    } else {
        prefix + input
    }
}

/// A tag without its prefix (unchanged when it does not carry it).
pub open spec fn without_prefix(prefix: Seq<char>, s: Seq<char>) -> Seq<char> {
    if has_prefix(s, prefix) {
        s.subrange(prefix.len() as int, s.len() as int)
    } else {
        s
    }
}

/// The position of the first occurrence of `t` in `tags`.
pub open spec fn first_position(tags: Seq<Seq<char>>, t: Seq<char>) -> Option<int>
    decreases tags.len(),
{
    if tags.len() == 0 {
        None
    } else {
        match first_position(tags.drop_last(), t) {
            Some(i) => Some(i),
            None => if tags.last() == t {
                Some(tags.len() - 1)
            } else {
                None
            },
        }
    }
}

/// The error of a tag that no PR carries.
pub open spec fn tag_not_found(tag: Seq<char>) -> Seq<char> {
    "Tag '"@ + tag + "' not found in PRs"@
}

/// The tag the notes are for and its version label, given the requested
/// versions and the merge tags in order: the `to` version when given (it
/// must be a known tag); otherwise the tag after the `from` version (or
/// the `from` version itself when it is the last); otherwise the last tag.
pub open spec fn target_tag(
    prefix: Seq<char>,
    from: Option<Seq<char>>,
    to: Option<Seq<char>>,
    tags: Seq<Seq<char>>,
) -> Result<(Seq<char>, Seq<char>), Seq<char>> {
    match to {
        Some(t) => {
            let tag = normalized_tag(prefix, t);
            if tags.contains(tag) {
                Ok((tag, without_prefix(prefix, t)))
            } else {
                Err(tag_not_found(tag))
            }
        },
        None => match from {
            Some(f) => {
                let ft = normalized_tag(prefix, f);
                match first_position(tags, ft) {
                    None => Err(tag_not_found(ft)),
                    Some(i) => if i + 1 < tags.len() {
                        Ok((tags[i + 1], without_prefix(prefix, tags[i + 1])))
                    } else {
                        Ok((ft, without_prefix(prefix, f)))
                    },
                }
            },
            None => Ok((tags.last(), without_prefix(prefix, tags.last()))),
        },
    }
}

/// The view of an optional string.
pub open spec fn opt_view(o: Option<String>) -> Option<Seq<char>> {
    match o {
        Some(s) => Some(s@),
        None => None,
    }
}

/// The views of a sequence of strings.
pub open spec fn tag_views(tags: Seq<String>) -> Seq<Seq<char>> {
    tags.map_values(|s: String| s@)
}

proof fn lemma_first_position(tags: Seq<Seq<char>>, t: Seq<char>)
    ensures
        match first_position(tags, t) {
            Some(i) => 0 <= i < tags.len() && tags[i] == t && forall|j: int| 0 <= j < i ==> tags[j] != t,
            None => forall|j: int| 0 <= j < tags.len() ==> tags[j] != t,
        },
    decreases tags.len(),
{
    if tags.len() > 0 {
        let init = tags.drop_last();
        lemma_first_position(init, t);
        assert(forall|j: int| 0 <= j < init.len() ==> init[j] == tags[j]);
    }
}

proof fn lemma_prefix_split(prefix: Seq<char>, s: Seq<char>)
    ensures
        has_prefix(s, prefix) ==> prefix + without_prefix(prefix, s) == s,
        !has_prefix(s, prefix) ==> without_prefix(prefix, s) == s,
{
    if has_prefix(s, prefix) {
        assert(prefix + s.subrange(prefix.len() as int, s.len() as int) =~= s);
    }
}

proof fn lemma_normalized_label(prefix: Seq<char>, input: Seq<char>)
    ensures
        has_prefix(normalized_tag(prefix, input), prefix),
        prefix + without_prefix(prefix, input) == normalized_tag(prefix, input),
{
    lemma_prefix_split(prefix, input);
    if !has_prefix(input, prefix) {
        assert((prefix + input).subrange(0, prefix.len() as int) =~= prefix);
    }
}

/// The version label of a resolved tag never carries the prefix: when the
/// tag starts with the prefix, the prefix followed by the label is the tag,
/// and a tag without the prefix is its own label. A resolved tag is one of
/// the merge tags.
pub proof fn law_version_label(
    prefix: Seq<char>,
    from: Option<Seq<char>>,
    to: Option<Seq<char>>,
    tags: Seq<Seq<char>>,
)
    requires
        from is None && to is None ==> tags.len() > 0,
    ensures
        match target_tag(prefix, from, to, tags) {
            Ok((tag, label)) => {
                &&& tags.contains(tag)
                &&& has_prefix(tag, prefix) ==> prefix + label == tag
                &&& !has_prefix(tag, prefix) ==> label == tag
            },
            Err(_) => true,
        },
{
    match to {
        Some(t) => {
            lemma_normalized_label(prefix, t);
        },
        None => match from {
            Some(f) => {
                let ft = normalized_tag(prefix, f);
                lemma_first_position(tags, ft);
                lemma_normalized_label(prefix, f);
                match first_position(tags, ft) {
                    None => {},
                    Some(i) => {
                        if i + 1 < tags.len() {
                            lemma_prefix_split(prefix, tags[i + 1]);
                            assert(tags.contains(tags[i + 1]));
                        } else {
                            assert(tags.contains(tags[i]));
                        }
                    },
                }
            },
            None => {
                lemma_prefix_split(prefix, tags.last());
                assert(tags.contains(tags[tags.len() - 1]));
            },
        },
    }
}

/// Which tag the notes are for: with a `to` version, the tag of that
/// version (it as given when it carries the prefix, else the prefix
/// followed by it), resolved exactly when some merge tag equals it; else,
/// with a `from` version whose tag occurs among the merge tags, the tag
/// right after its first occurrence, or that tag itself when it is the
/// last; with neither, the last merge tag.
pub proof fn law_target_tag_choice(
    prefix: Seq<char>,
    from: Option<Seq<char>>,
    to: Option<Seq<char>>,
    tags: Seq<Seq<char>>,
)
    ensures
        match (to, from) {
            (Some(t), _) => {
                &&& (target_tag(prefix, from, to, tags) is Ok <==> exists|k: int|
                    0 <= k < tags.len() && #[trigger] tags[k] == (if has_prefix(t, prefix) { t } else { prefix + t }))
                &&& match target_tag(prefix, from, to, tags) {
                    Ok((tag, _)) => tag == t || tag == prefix + t,
                    Err(_) => true,
                }
            },
            (None, Some(f)) => match target_tag(prefix, from, to, tags) {
                Ok((tag, _)) => exists|i: int|
                    0 <= i < tags.len() && #[trigger] tags[i] == (if has_prefix(f, prefix) { f } else { prefix + f })
                        && (forall|k: int| 0 <= k < i ==> tags[k] != tags[i]) && (if i + 1 < tags.len() {
                        tag == tags[i + 1]
                    } else {
                        tag == tags[i]
                    }),
                Err(_) => forall|k: int|
                    0 <= k < tags.len() ==> tags[k] != (if has_prefix(f, prefix) { f } else { prefix + f }),
            },
            (None, None) => match target_tag(prefix, from, to, tags) {
                Ok((tag, _)) => tag == tags.last(),
                Err(_) => false,
            },
        },
{
    match to {
        Some(t) => {
            let tag = normalized_tag(prefix, t);
            if tags.contains(tag) {
                let k = choose|k: int| 0 <= k < tags.len() && tags[k] == tag;
                assert(tags[k] == tag);
            }
        },
        None => match from {
            Some(f) => {
                let ft = normalized_tag(prefix, f);
                lemma_first_position(tags, ft);
                match first_position(tags, ft) {
                    None => {},
                    Some(i) => {
                        assert(tags[i] == ft);
                    },
                }
            },
            None => {},
        },
    }
}

/// The runner of the release-notes command.
pub struct ReleaseNotesRunner {
    config: ReleaseNotesRunnerConfig,
}

impl ReleaseNotesRunnerConfig {
    /// The configuration from merged settings and the command line:
    /// organization, project and PAT are required (checked in that order);
    /// the repository defaults to empty, the dev branch to `dev`, the tag
    /// prefix to `merged-`, and the concurrency limits to 100 network and
    /// 10 processing tasks.
    pub fn from_settings(settings: MergedSettings, args: ReleaseNotesArgs) -> (r: Result<Self, String>)
        ensures
            settings.organization is None ==> (r matches Err(e) && e@ == "organization is required (use -o or config file)"@),
            settings.organization is Some && settings.project is None ==> (r matches Err(e) && e@
                == "project is required (use -p or config file)"@),
            settings.organization is Some && settings.project is Some && settings.pat is None ==> (r matches Err(e) && e@
                == "PAT is required (use -t, MERGERS_PAT env var, or config file)"@),
            settings.organization is Some && settings.project is Some && settings.pat is Some ==> (r matches Ok(c) && {
                &&& c.organization == settings.organization->0
                &&& c.project == settings.project->0
                &&& c.pat == settings.pat->0
                &&& c.repository@ == str_or(settings.repository, ""@)
                &&& c.dev_branch@ == str_or(settings.dev_branch, "dev"@)
                &&& c.tag_prefix@ == str_or(settings.tag_prefix, "merged-"@)
                &&& c.max_concurrent_network == match settings.max_concurrent_network {
                    Some(n) => n,
                    None => 100,
                }
                &&& c.max_concurrent_processing == match settings.max_concurrent_processing {
                    Some(n) => n,
                    None => 10,
                }
                &&& c.from_version == args.from
                &&& c.to_version == args.to
                &&& c.output_format == args.output
                &&& c.grouped == args.group
                &&& c.include_prs == args.include_prs
                &&& c.copy_to_clipboard == args.copy
                &&& c.no_cache == args.no_cache
            }),
    {
        let organization = match settings.organization {
            Some(o) => o,
            None => {
                return Err("organization is required (use -o or config file)".to_owned());
            },
        };
        let project = match settings.project {
            Some(p) => p,
            None => {
                return Err("project is required (use -p or config file)".to_owned());
            },
        };
        let pat = match settings.pat {
            Some(p) => p,
            None => {
                return Err("PAT is required (use -t, MERGERS_PAT env var, or config file)".to_owned());
            },
        };
        let repository = match settings.repository {
            Some(r) => r,
            None => {
                proof {
                    reveal_strlit("");
                }
                String::new()
            },
        };
        let dev_branch = match settings.dev_branch {
            Some(b) => b,
            None => "dev".to_owned(),
        };
        let tag_prefix = match settings.tag_prefix {
            Some(t) => t,
            None => "merged-".to_owned(),
        };
        let max_concurrent_network = match settings.max_concurrent_network {
            Some(n) => n,
            None => 100,
        };
        let max_concurrent_processing = match settings.max_concurrent_processing {
            Some(n) => n,
            None => 10,
        };
        Ok(ReleaseNotesRunnerConfig {
            organization,
            project,
            repository,
            pat,
            dev_branch,
            tag_prefix,
            from_version: args.from,
            to_version: args.to,
            output_format: args.output,
            grouped: args.group,
            include_prs: args.include_prs,
            copy_to_clipboard: args.copy,
            no_cache: args.no_cache,
            max_concurrent_network,
            max_concurrent_processing,
        })
    }
}

impl ReleaseNotesRunner {
    /// The configuration.
    pub closed spec fn config_view(&self) -> ReleaseNotesRunnerConfig {
        self.config
    }

    /// A runner for `config`.
    pub fn new(config: ReleaseNotesRunnerConfig) -> (r: Self)
        ensures
            r.config_view() == config,
    {
        ReleaseNotesRunner { config }
    }

    /// The configuration.
    pub fn config(&self) -> (r: &ReleaseNotesRunnerConfig)
        ensures
            *r == self.config_view(),
    {
        &self.config
    }

    /// The tag of a version: `input` when it starts with `prefix`,
    /// otherwise `prefix` followed by `input`.
    pub fn normalize_tag(prefix: &str, input: &str) -> (r: String)
        ensures
            r@ == normalized_tag(prefix@, input@),
    {
        if starts_with(input, prefix) {
            input.to_owned()
        } else {
            concat2(prefix, input)
        }
    }

    /// `s` without `prefix` (unchanged when it does not start with it).
    fn strip_prefix(prefix: &str, s: &str) -> (r: String)
        ensures
            r@ == without_prefix(prefix@, s@),
    {
        if starts_with(s, prefix) {
            let n = prefix.unicode_len();
            let m = s.unicode_len();
            s.substring_char(n, m).to_owned()
        } else {
            s.to_owned()
        }
    }

    /// The tag the notes are for and its version label, among the merge
    /// tags `all_tags` in order, or the error naming a requested tag that
    /// no PR carries.
    pub fn resolve_target_tag(&self, all_tags: &Vec<String>) -> (r: Result<(String, String), String>)
        requires
            self.config_view().from_version is None && self.config_view().to_version is None ==> all_tags@.len() > 0,
        ensures
            match (
                r,
                target_tag(
                    self.config_view().tag_prefix@,
                    opt_view(self.config_view().from_version),
                    opt_view(self.config_view().to_version),
                    tag_views(all_tags@),
                ),
            ) {
                (Ok((tag, version)), Ok((t, v))) => tag@ == t && version@ == v,
                (Err(e), Err(m)) => e@ == m,
                _ => false,
            },
    {
        let prefix = self.config.tag_prefix.as_str();
        let ghost tags = tag_views(all_tags@);
        match &self.config.to_version {
            Some(to) => {
                let to_tag = Self::normalize_tag(prefix, to.as_str());
                let mut found = false;
                let mut i: usize = 0;
                while i < all_tags.len()
                    invariant
                        0 <= i <= all_tags@.len(),
                        tags == tag_views(all_tags@),
                        found == exists|j: int| 0 <= j < i && tags[j] == to_tag@,
                    decreases all_tags@.len() - i,
                {
                    assert(tags[i as int] == all_tags@[i as int]@);
                    if str_eq(all_tags[i].as_str(), to_tag.as_str()) {
                        found = true;
                    }
                    i = i + 1;
                }
                if !found {
                    proof {
                        if tags.contains(to_tag@) {
                            let j = choose|j: int| 0 <= j < tags.len() && tags[j] == to_tag@;
                            assert(tags[j] == to_tag@);
                        }
                    }
                    return Err(concat3("Tag '", to_tag.as_str(), "' not found in PRs"));
                }
                proof {
                    let j = choose|j: int| 0 <= j < tags.len() && tags[j] == to_tag@;
                    assert(tags.contains(to_tag@));
                }
                let version = Self::strip_prefix(prefix, to.as_str());
                Ok((to_tag, version))
            },
            None => match &self.config.from_version {
                Some(from) => {
                    let from_tag = Self::normalize_tag(prefix, from.as_str());
                    let mut pos: Option<usize> = None;
                    let mut i: usize = 0;
                    proof {
                        lemma_first_position(tags, from_tag@);
                    }
                    while i < all_tags.len()
                        invariant
                            0 <= i <= all_tags@.len(),
                            tags == tag_views(all_tags@),
                            match first_position(tags, from_tag@) {
                                Some(p) => 0 <= p < tags.len() && tags[p] == from_tag@ && forall|j: int|
                                    0 <= j < p ==> tags[j] != from_tag@,
                                None => forall|j: int| 0 <= j < tags.len() ==> tags[j] != from_tag@,
                            },
                            match pos {
                                Some(p) => first_position(tags, from_tag@) == Some(p as int),
                                None => forall|j: int| 0 <= j < i ==> tags[j] != from_tag@,
                            },
                        decreases all_tags@.len() - i,
                    {
                        assert(tags[i as int] == all_tags@[i as int]@);
                        if pos.is_none() && str_eq(all_tags[i].as_str(), from_tag.as_str()) {
                            pos = Some(i);
                        }
                        i = i + 1;
                    }
                    match pos {
                        None => Err(concat3("Tag '", from_tag.as_str(), "' not found in PRs")),
                        Some(p) => {
                            if p + 1 < all_tags.len() {
                                let tag = all_tags[p + 1].clone();
                                let version = Self::strip_prefix(prefix, tag.as_str());
                                Ok((tag, version))
                            } else {
                                let version = Self::strip_prefix(prefix, from.as_str());
                                Ok((from_tag, version))
                            }
                        },
                    }
                },
                None => {
                    let tag = all_tags[all_tags.len() - 1].clone();
                    let version = Self::strip_prefix(prefix, tag.as_str());
                    Ok((tag, version))
                },
            },
        }
    }
}

} // verus!
