//! The input: one package URL per line.

use vstd::prelude::*;
use crate::github::{github_identity, Github, RepoView};
use crate::npm::{registry_document_url, Npm};
use crate::text::{chars_of, find_char, lemma_find_char_from_bounds, split_from, trim, trimmed};
use crate::weburl::{parse_url, url_parses};

verus! {

/// What a line of the input designates.
pub enum Target {
    /// A repository of the hosting platform.
    Repository(Github),
    /// A package of the registry: the URL as given, and the address of the registry's
    /// metadata document about it.
    Package { url: String, document: String },
}

/// What a line of the input designates, as values.
pub enum TargetView {
    Repository(RepoView),
    Package { url: Seq<char>, document: Seq<char> },
}

impl View for Target {
    type V = TargetView;

    open spec fn view(&self) -> TargetView {
        match self {
            Target::Repository(g) => TargetView::Repository(g@),
            Target::Package { url, document } => TargetView::Package {
                url: url@,
                document: document@,
            },
        }
    }
}

/// Why an input is refused.
pub enum InputError {
    /// A line that is not a URL; it is given without its surrounding blanks.
    InvalidUrl(String),
}

/// The targets of the lines `lines`, in their order, or the first non-blank line that
/// is not a URL. Blank lines, and URLs of other hosts or of no repository, designate
/// nothing.
pub open spec fn targets_of(lines: Seq<Seq<char>>) -> Result<Seq<TargetView>, Seq<char>>
    decreases lines.len(),
{
    if lines.len() == 0 {
        Ok(Seq::empty())
    } else {
        let l = trim(lines[0]);
        let rest = targets_of(lines.drop_first());
        if l.len() == 0 {
            rest
        } else if !url_parses(l) {
            Err(l)
        } else {
            match line_target(l) {
                Some(t) => prepend(seq![t], rest),
                None => rest,
            }
        }
    }
}

/// What a trimmed line that is a URL designates.
pub open spec fn line_target(l: Seq<char>) -> Option<TargetView> {
    match github_identity(l) {
        Some(id) => Some(TargetView::Repository(RepoView { owner: id.0, name: id.1, link: l })),
        None => match registry_document_url(l) {
            Some(d) => Some(TargetView::Package { url: l, document: d }),
            None => None,
        },
    }
}

/// `ts` before the targets of `r`, when `r` holds targets.
pub open spec fn prepend(ts: Seq<TargetView>, r: Result<Seq<TargetView>, Seq<char>>) -> Result<
    Seq<TargetView>,
    Seq<char>,
> {
    match r {
        Ok(x) => Ok(ts + x),
        Err(e) => Err(e),
    }
}

/// The targets of an input text.
pub open spec fn input_targets(text: Seq<char>) -> Result<Seq<TargetView>, Seq<char>> {
    targets_of(split_from(text, '\n', 0))
}

/// The views of a sequence of targets.
pub open spec fn target_views(s: Seq<Target>) -> Seq<TargetView> {
    s.map_values(|t: Target| t@)
}

/// An input whose lines are each blank or a URL of no supported package designates
/// nothing, and is no error.
pub proof fn lemma_unsupported_lines_designate_nothing(lines: Seq<Seq<char>>)
    requires
        forall|i: int|
            0 <= i < lines.len() ==> trim(#[trigger] lines[i]).len() == 0 || (url_parses(
                trim(lines[i]),
            ) && github_identity(trim(lines[i])) is None && registry_document_url(
                trim(lines[i]),
            ) is None),
    ensures
        targets_of(lines) == Ok::<Seq<TargetView>, Seq<char>>(Seq::empty()),
    decreases lines.len(),
{
    if lines.len() > 0 {
        let t = lines.drop_first();
        assert forall|i: int| 0 <= i < t.len() implies trim(#[trigger] t[i]).len() == 0 || (
        url_parses(trim(t[i])) && github_identity(trim(t[i])) is None && registry_document_url(
            trim(t[i]),
        ) is None) by {
            assert(t[i] == lines[i + 1]);
        }
        lemma_unsupported_lines_designate_nothing(t);
        assert(trim(lines[0]).len() == 0 || url_parses(trim(lines[0])));
        assert(Seq::<TargetView>::empty() + Seq::<TargetView>::empty() =~= Seq::<
            TargetView,
        >::empty());
    }
}

/// The target of a trimmed line that is a URL, if it designates one.
fn target_of_line(l: String) -> (r: Option<Target>)
    requires
        url_parses(l@),
    ensures
        match r {
            Some(t) => line_target(l@) == Some(t@),
            None => line_target(l@) is None,
        },
{
    match Github::with_url(l.as_str()) {
        Some(g) => Some(Target::Repository(g)),
        None => match Npm::registry_url(l.as_str()) {
            Some(d) => Some(Target::Package { url: l, document: d }),
            None => None,
        },
    }
}

/// The targets that the lines of `text` designate, in their order; an error on the
/// first line that is neither blank nor a URL.
pub fn read_targets(text: &str) -> (r: Result<Vec<Target>, InputError>)
    ensures
        match input_targets(text@) {
            Ok(ts) => r is Ok && target_views(r->Ok_0@) == ts,
            Err(l) => match r {
                Err(InputError::InvalidUrl(e)) => e@ == l,
                Ok(_) => false,
            },
        },
{
    let cs = chars_of(text);
    let n = cs.len();
    let mut out: Vec<Target> = Vec::new();
    let mut start: usize = 0;
    proof {
        assert(target_views(out@) + Seq::<TargetView>::empty() =~= Seq::<TargetView>::empty());
        match targets_of(split_from(cs@, '\n', 0)) {
            Ok(x) => assert(Seq::<TargetView>::empty() + x =~= x),
            Err(_) => {},
        }
    }
    loop
        invariant
            start <= n,
            n == cs@.len(),
            cs@ == text@,
            input_targets(text@) == prepend(
                target_views(out@),
                targets_of(split_from(cs@, '\n', start as int)),
            ),
        decreases n - start,
    {
        let j = find_char(cs.as_slice(), '\n', start);
        proof {
            lemma_find_char_from_bounds(cs@, '\n', start as int);
        }
        let ghost lines = split_from(cs@, '\n', start as int);
        let ghost rest = if j < n {
            split_from(cs@, '\n', j + 1)
        } else {
            Seq::<Seq<char>>::empty()
        };
        assert(lines.drop_first() =~= rest);
        let line = trimmed(cs.as_slice(), start, j);
        assert(line@ == trim(lines[0]));
        if line.unicode_len() > 0 {
            if parse_url(line.as_str()).is_none() {
                return Err(InputError::InvalidUrl(line));
            }
            let ghost before = target_views(out@);
            match target_of_line(line) {
                Some(t) => {
                    out.push(t);
                    proof {
                        assert(target_views(out@) =~= before + seq![t@]);
                        match targets_of(rest) {
                            Ok(x) => assert(before + (seq![t@] + x) =~= before + seq![t@] + x),
                            Err(_) => {},
                        }
                    }
                },
                None => {},
            }
        }
        if j == n {
            return Ok(out);
        }
        start = j + 1;
    }
}

} // verus!
