//! A project: the environments and the requests that were written down
//! for it, each under its name.

use crate::dict::{lookup, put, put_all, Dict, Entries};
use crate::environment::{entries_of, Environment};
use crate::error::{Error, ErrorView};
use crate::request::{description_of, prepared, with_environment, Outgoing, OutgoingView, Request,
    RequestView};
use crate::responses::Responses;
use crate::text::{chars_of, ends_with, matches_at};
use vstd::prelude::*;
use vstd::string::StringExecFns;

verus! {

/// The name of the directory, within that of the project, in which the
/// responses are kept.
pub const RESPONSES_DIRECTORY: &'static str = "responses";

/// The environments and requests of one project directory.
#[derive(Debug)]
pub struct Project {
    path: String,
    environments: Dict<Environment>,
    requests: Dict<Request>,
}

/// A `Project` with its texts as sequences of characters.
pub struct ProjectView {
    pub path: Seq<char>,
    pub environments: Seq<(Seq<char>, Entries)>,
    pub requests: Seq<(Seq<char>, RequestView)>,
}

impl View for Project {
    type V = ProjectView;

    closed spec fn view(&self) -> ProjectView {
        ProjectView {
            path: self.path@,
            environments: self.environments@,
            requests: self.requests@,
        }
    }
}

/// The texts of a list of names.
pub open spec fn names_of(names: Seq<String>) -> Seq<Seq<char>> {
    names.map_values(|n: String| n@)
}

/// Whether a name is to be listed: it is among `names`, or `names` is
/// empty and so asks for all.
pub open spec fn listed(names: Seq<Seq<char>>, name: Seq<char>) -> bool {
    names.len() == 0 || names.contains(name)
}

/// The environments that the names ask for, in the order of the names. A
/// name that occurred before, or under which the project has no
/// environment, adds nothing.
pub open spec fn selected(
    environments: Seq<(Seq<char>, Entries)>,
    names: Seq<Seq<char>>,
) -> Seq<Entries>
    decreases names.len(),
{
    if names.len() == 0 {
        Seq::empty()
    } else {
        let before = selected(environments, names.drop_last());
        if names.drop_last().contains(names.last()) {
            before
        } else {
            match lookup(environments, names.last()) {
                Some(env) => before.push(env),
                None => before,
            }
        }
    }
}

/// The variables of an environment as they are listed: each as two
/// spaces, the name, `=` and the value.
pub open spec fn variable_lines(entries: Entries) -> Seq<Seq<char>> {
    entries.map_values(|e: (Seq<char>, Seq<char>)| "  "@ + e.0 + "="@ + e.1)
}

/// The lines that list the environments: the name of each environment that
/// is to be listed and, where `verbose`, its variables below it.
pub open spec fn environment_lines(
    environments: Seq<(Seq<char>, Entries)>,
    names: Seq<Seq<char>>,
    verbose: bool,
) -> Seq<Seq<char>>
    decreases environments.len(),
{
    if environments.len() == 0 {
        Seq::empty()
    } else {
        let before = environment_lines(environments.drop_last(), names, verbose);
        let last = environments.last();
        if !listed(names, last.0) {
            before
        } else if verbose {
            before.push(last.0) + variable_lines(last.1)
        } else {
            before.push(last.0)
        }
    }
}

/// The lines that list the requests: for each request that is to be
/// listed its name or, where `verbose`, its name behind `name: `, its
/// description with the environments applied, and an empty line.
pub open spec fn request_lines(
    requests: Seq<(Seq<char>, RequestView)>,
    envs: Seq<Entries>,
    names: Seq<Seq<char>>,
    verbose: bool,
) -> Seq<Seq<char>>
    decreases requests.len(),
{
    if requests.len() == 0 {
        Seq::empty()
    } else {
        let before = request_lines(requests.drop_last(), envs, names, verbose);
        let last = requests.last();
        if !listed(names, last.0) {
            before
        } else if verbose {
            before.push("name: "@ + last.0).push(
                description_of(with_environment(envs, last.1)),
            ).push(Seq::empty())
        } else {
            before.push(last.0)
        }
    }
}

/// What is sent for the request under the name `req`, resolved with the
/// environments that `envs` names: nothing where there is no such request.
pub open spec fn prepared_request(
    project: ProjectView,
    envs: Seq<Seq<char>>,
    req: Seq<char>,
    contents: Entries,
) -> Result<Option<OutgoingView>, ErrorView> {
    match lookup(project.requests, req) {
        None => Ok(None),
        Some(request) => match prepared(selected(project.environments, envs), contents, request) {
            Ok(message) => Ok(Some(message)),
            Err(e) => Err(e),
        },
    }
}

/// The outcome of preparing a request by its name, with the message and
/// the error taken by their views.
pub open spec fn message(out: Result<Option<Outgoing>, Error>) -> Result<
    Option<OutgoingView>,
    ErrorView,
> {
    match out {
        Ok(Some(message)) => Ok(Some(message@)),
        Ok(None) => Ok(None),
        Err(e) => Err(e@),
    }
}

/// Whether a file of the name `file_name` holds definitions of a project:
/// its extension is `yaml`, that is, the name ends in `.yaml` and has
/// something before that.
pub open spec fn is_definition_name(file_name: Seq<char>) -> bool {
    file_name.len() > 5 && ends_with(file_name, ".yaml"@)
}

/// Whether a file of the name `file_name` holds definitions of a project.
pub fn is_definition_file(file_name: &str) -> (out: bool)
    ensures
        out == is_definition_name(file_name@),
{
    let name = chars_of(file_name);
    let ending = chars_of(".yaml");
    if name.len() <= 5 {
        return false;
    }
    proof {
        reveal_strlit(".yaml");
        let tail = name@.skip(name.len() - 5);
        assert(tail.take(5) == tail);
    }
    matches_at(&name, name.len() - 5, &ending)
}

/// Whether `name` is among the first `upto` of `names`.
fn occurs_before(names: &Vec<String>, upto: usize, name: &String) -> (found: bool)
    requires
        upto <= names.len(),
    ensures
        found == names_of(names@).take(upto as int).contains(name@),
{
    let ghost texts = names_of(names@).take(upto as int);
    let mut i: usize = 0;
    while i < upto
        invariant
            i <= upto <= names.len(),
            texts == names_of(names@).take(upto as int),
            forall|j: int| 0 <= j < i ==> texts[j] != name@,
        decreases upto - i,
    {
        if names[i] == *name {
            assert(texts[i as int] == name@);
            return true;
        }
        i = i + 1;
    }
    false
}

/// Whether `name` is to be listed, given the names that were asked for.
fn is_listed(names: &Vec<String>, name: &String) -> (found: bool)
    ensures
        found == listed(names_of(names@), name@),
{
    proof {
        assert(names_of(names@).take(names.len() as int) == names_of(names@));
    }
    names.len() == 0 || occurs_before(names, names.len(), name)
}

impl Project {
    /// A project for the directory `path`, without environments or
    /// requests.
    pub fn new(path: String) -> (out: Self)
        ensures
            out@ == (ProjectView {
                path: path@,
                environments: Seq::empty(),
                requests: Seq::empty(),
            }),
    {
        Project { path, environments: Dict::new(), requests: Dict::new() }
    }

    /// The directory of the project.
    pub fn path(&self) -> (out: &String)
        ensures
            out@ == self@.path,
    {
        &self.path
    }

    /// The environments, each under its name.
    pub fn environments(&self) -> (out: &Dict<Environment>)
        ensures
            out@ == self@.environments,
    {
        &self.environments
    }

    /// The requests, each under its name.
    pub fn requests(&self) -> (out: &Dict<Request>)
        ensures
            out@ == self@.requests,
    {
        &self.requests
    }

    /// Puts an environment under `name`, in the place of the one that
    /// stood there, if any.
    pub fn add_environment(&mut self, name: String, environment: Environment)
        ensures
            final(self)@ == (ProjectView {
                environments: put(old(self)@.environments, name@, environment@),
                ..old(self)@
            }),
    {
        self.environments.insert(name, environment);
    }

    /// Puts a request under `name`, in the place of the one that stood
    /// there, if any.
    pub fn add_request(&mut self, name: String, request: Request)
        ensures
            final(self)@ == (ProjectView {
                requests: put(old(self)@.requests, name@, request@),
                ..old(self)@
            }),
    {
        self.requests.insert(name, request);
    }

    /// Takes in the environments and the requests of `p`. Where both hold
    /// one under the same name, that of `p` stands afterwards.
    pub fn extend(&mut self, p: Self)
        ensures
            final(self)@ == (ProjectView {
                path: old(self)@.path,
                environments: put_all(old(self)@.environments, p@.environments),
                requests: put_all(old(self)@.requests, p@.requests),
            }),
    {
        self.environments.extend(p.environments);
        self.requests.extend(p.requests);
    }

    /// The environments that `names` ask for, in the order of the names.
    pub fn select_environments(&self, names: &Vec<String>) -> (out: Vec<Environment>)
        ensures
            entries_of(out@) == selected(self@.environments, names_of(names@)),
    {
        let ghost texts = names_of(names@);
        let mut out: Vec<Environment> = Vec::new();
        let mut i: usize = 0;
        proof {
            assert(entries_of(out@) == Seq::<Entries>::empty());
        }
        while i < names.len()
            invariant
                i <= names.len(),
                texts == names_of(names@),
                entries_of(out@) == selected(self@.environments, texts.take(i as int)),
            decreases names.len() - i,
        {
            proof {
                assert(texts.take(i + 1).drop_last() == texts.take(i as int));
                assert(texts.take(i + 1).last() == names@[i as int]@);
            }
            if !occurs_before(names, i, &names[i]) {
                match self.environments.get(names[i].as_str()) {
                    Some(env) => {
                        let copy = env.clone();
                        proof {
                            assert(entries_of(out@.push(copy)) == entries_of(out@).push(copy@));
                        }
                        out.push(copy);
                    },
                    None => {},
                }
            }
            i = i + 1;
        }
        proof {
            assert(texts.take(names.len() as int) == texts);
        }
        out
    }

    /// The lines that list the environments of the project: all of them
    /// where `envs` is empty, else those that `envs` names. Where
    /// `verbose`, the variables of each follow its name.
    pub fn environment_listing(&self, envs: &Vec<String>, verbose: bool) -> (out: Vec<String>)
        ensures
            names_of(out@) == environment_lines(self@.environments, names_of(envs@), verbose),
    {
        let ghost all = self.environments@;
        let mut out: Vec<String> = Vec::new();
        let mut i: usize = 0;
        proof {
            assert(names_of(out@) == Seq::<Seq<char>>::empty());
        }
        while i < self.environments.len()
            invariant
                i <= all.len(),
                all == self.environments@,
                names_of(out@) == environment_lines(all.take(i as int), names_of(envs@), verbose),
            decreases all.len() - i,
        {
            proof {
                assert(all.take(i + 1).drop_last() == all.take(i as int));
                assert(all.take(i + 1).last() == all[i as int]);
            }
            let name = self.environments.key_at(i);
            if is_listed(envs, name) {
                let ghost before = names_of(out@);
                let copy = name.clone();
                proof {
                    assert(names_of(out@.push(copy)) == before.push(name@));
                }
                out.push(copy);
                if verbose {
                    let env = self.environments.value_at(i);
                    let ghost lines = variable_lines(env@);
                    let mut k: usize = 0;
                    while k < env.len()
                        invariant
                            k <= env@.len(),
                            lines == variable_lines(env@),
                            names_of(out@) == before.push(name@) + lines.take(k as int),
                        decreases env@.len() - k,
                    {
                        let mut line = String::from_str("  ");
                        line.append(env.key_at(k).as_str());
                        line.append("=");
                        line.append(env.value_at(k).as_str());
                        proof {
                            assert(lines.take(k + 1) == lines.take(k as int).push(lines[k as int]));
                            assert(names_of(out@.push(line)) == names_of(out@).push(line@));
                        }
                        out.push(line);
                        k = k + 1;
                    }
                    proof {
                        assert(lines.take(env@.len() as int) == lines);
                    }
                }
            }
            i = i + 1;
        }
        proof {
            assert(all.take(all.len() as int) == all);
        }
        out
    }

    /// The lines that list the requests of the project: all of them where
    /// `requests` is empty, else those that `requests` names. Where
    /// `verbose`, each is shown with the environments that `envs` names
    /// applied to it.
    pub fn request_listing(
        &self,
        envs: &Vec<String>,
        requests: &Vec<String>,
        verbose: bool,
    ) -> (out: Vec<String>)
        ensures
            names_of(out@) == request_lines(
                self@.requests,
                selected(self@.environments, names_of(envs@)),
                names_of(requests@),
                verbose,
            ),
    {
        let ghost all = self.requests@;
        let chosen = self.select_environments(envs);
        let mut out: Vec<String> = Vec::new();
        let mut i: usize = 0;
        proof {
            assert(names_of(out@) == Seq::<Seq<char>>::empty());
        }
        while i < self.requests.len()
            invariant
                i <= all.len(),
                all == self.requests@,
                entries_of(chosen@) == selected(self@.environments, names_of(envs@)),
                names_of(out@) == request_lines(
                    all.take(i as int),
                    entries_of(chosen@),
                    names_of(requests@),
                    verbose,
                ),
            decreases all.len() - i,
        {
            proof {
                assert(all.take(i + 1).drop_last() == all.take(i as int));
                assert(all.take(i + 1).last() == all[i as int]);
            }
            let name = self.requests.key_at(i);
            if is_listed(requests, name) {
                if verbose {
                    let mut shown = self.requests.value_at(i).clone();
                    shown.apply_environment(chosen.as_slice());
                    let title = String::from_str("name: ").concat(name.as_str());
                    let text = shown.describe();
                    let blank = String::new();
                    proof {
                        assert(names_of(out@.push(title).push(text).push(blank)) == names_of(
                            out@,
                        ).push(title@).push(text@).push(blank@));
                    }
                    out.push(title);
                    out.push(text);
                    out.push(blank);
                } else {
                    let copy = name.clone();
                    proof {
                        assert(names_of(out@.push(copy)) == names_of(out@).push(copy@));
                    }
                    out.push(copy);
                }
            }
            i = i + 1;
        }
        proof {
            assert(all.take(all.len() as int) == all);
        }
        out
    }

    /// What is sent for the request `req` once it is filled in from the
    /// environments that `envs` names and from the stored responses;
    /// nothing where the project has no request of that name.
    pub fn prepare_request(
        &self,
        envs: &Vec<String>,
        req: &str,
        responses: &Responses,
    ) -> (out: Result<Option<Outgoing>, Error>)
        ensures
            message(out) == prepared_request(self@, names_of(envs@), req@, responses@),
    {
        match self.requests.get(req) {
            None => Ok(None),
            Some(request) => {
                let chosen = self.select_environments(envs);
                match request.prepare(chosen.as_slice(), responses) {
                    Ok(message) => Ok(Some(message)),
                    Err(e) => Err(e),
                }
            },
        }
    }
}

} // verus!
