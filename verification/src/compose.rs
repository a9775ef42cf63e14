//! The composer: resolves each requested language token against the catalog,
//! in order, and concatenates the formatted blocks into one aggregate output.
//! Fetching a template body and asking the user to confirm a suggestion are
//! outside work, so the composer is a step machine: it hands such work out as
//! actions and is fed the results back.

use vstd::prelude::*;

use crate::catalog::{spec_get, Catalog};
use crate::chars::{sub_chars, string_from_chars, to_chars};
use crate::formatter::{format_gitignore, formatted_template};
use crate::fuzzy::{
    best_match, confirmation_prompt, is_affirmative, is_first_best, prompt_text, spec_keys,
};
use crate::text::trim_ws;

verus! {

/// The view of an optional string.
pub open spec fn opt_view(p: Option<String>) -> Option<Seq<char>> {
    match p {
        Option::Some(s) => Option::Some(s@),
        Option::None => Option::None,
    }
}

/// The position of the last path separator in a token, or `-1`.
pub open spec fn last_slash_index(t: Seq<char>) -> int
    decreases t.len(),
{
    if t.len() == 0 {
        -1
    } else if t.last() == '/' {
        t.len() - 1
    } else {
        last_slash_index(t.drop_last())
    }
}

/// The language name of a token: what follows its last path separator.
pub open spec fn req_name(t: Seq<char>) -> Seq<char> {
    t.skip(last_slash_index(t) + 1)
}

/// The prefix path of a token: everything up to and including its last path
/// separator, absent when the token has none.
pub open spec fn req_prefix(t: Seq<char>) -> Option<Seq<char>> {
    if last_slash_index(t) >= 0 {
        Option::Some(t.take(last_slash_index(t) + 1))
    } else {
        Option::None
    }
}

/// Split a request token at its last path separator into an optional prefix
/// path (separator included) and the language name.
pub fn split_request(token: &str) -> (r: (Option<String>, String))
    ensures
        opt_view(r.0) == req_prefix(token@),
        r.1@ == req_name(token@),
{
    let chars = to_chars(token);
    let n = chars.len();
    let mut j: usize = n;
    let mut found = false;
    proof {
        assert(chars@.take(n as int) =~= chars@);
    }
    while j > 0 && !found
        invariant
            j <= n,
            n == chars@.len(),
            !found ==> last_slash_index(chars@) == last_slash_index(chars@.take(j as int)),
            found ==> j >= 1 && last_slash_index(chars@) == j - 1,
        decreases j + (if found {
            0int
        } else {
            1int
        }),
    {
        if chars[j - 1] == '/' {
            found = true;
            proof {
                assert(chars@.take(j as int).last() == chars@[j - 1]);
                assert(last_slash_index(chars@.take(j as int)) == j - 1);
            }
        } else {
            proof {
                assert(chars@.take(j as int).last() == chars@[j - 1]);
                assert(chars@.take(j as int).drop_last() =~= chars@.take(j - 1));
            }
            j = j - 1;
        }
    }
    let cut = if found {
        j
    } else {
        proof {
            assert(chars@.take(0) =~= Seq::<char>::empty());
            assert(last_slash_index(chars@) == -1);
        }
        0
    };
    let name_chars = sub_chars(&chars, cut, n);
    let name = string_from_chars(&name_chars);
    proof {
        assert(chars@.subrange(cut as int, n as int) =~= chars@.skip(last_slash_index(chars@) + 1));
    }
    if found {
        let prefix_chars = sub_chars(&chars, 0, cut);
        let prefix = string_from_chars(&prefix_chars);
        proof {
            assert(chars@.subrange(0, cut as int) =~= chars@.take(last_slash_index(chars@) + 1));
        }
        (Some(prefix), name)
    } else {
        (None, name)
    }
}

/// A token demands work: its name is non-empty and either matches the catalog
/// exactly or the catalog has candidates to suggest from.
pub open spec fn actionable(cat: Seq<(Seq<char>, Seq<char>)>, t: Seq<char>) -> bool {
    req_name(t).len() > 0 && (spec_get(cat, req_name(t)) is Some || cat.len() > 0)
}

/// The first token position at or after `i` that demands work.
pub open spec fn first_actionable(
    cat: Seq<(Seq<char>, Seq<char>)>,
    toks: Seq<Seq<char>>,
    i: int,
) -> int
    decreases toks.len() - i,
{
    if i < 0 || i >= toks.len() {
        toks.len() as int
    } else if actionable(cat, toks[i]) {
        i
    } else {
        first_actionable(cat, toks, i + 1)
    }
}

/// The token `t` resolves exactly against the catalog.
pub open spec fn resolves_exact(cat: Seq<(Seq<char>, Seq<char>)>, t: Seq<char>) -> bool {
    spec_get(cat, req_name(t)) is Some
}

/// What the composer is waiting for.
pub enum Pending {
    /// No outside work pending.
    Idle,
    /// The body for `name` must be fetched from `url`.
    Fetch { prefix: Option<String>, name: String, url: String },
    /// The user must confirm the suggestion `name` for the query `query`.
    Confirm { prefix: Option<String>, query: String, name: String },
}

/// The outside work the composer hands out.
pub enum ComposeAction {
    /// Fetch the template body at `url` and feed it to `on_body`.
    FetchBody { url: String },
    /// Put `prompt` to the user, read one line, feed it to `on_answer`.
    AskUser { prompt: String },
    /// Every token is handled; the aggregate output is complete.
    Done,
}

/// The composing state: the request tokens, the position reached, what is
/// being waited for, and the aggregate output built so far.
pub struct Composer {
    tokens: Vec<String>,
    idx: usize,
    pending: Pending,
    output: String,
}

impl Composer {
    pub closed spec fn spec_tokens(self) -> Seq<Seq<char>> {
        self.tokens.deep_view()
    }

    pub closed spec fn spec_idx(self) -> int {
        self.idx as int
    }

    pub closed spec fn spec_pending(self) -> Pending {
        self.pending
    }

    pub closed spec fn spec_output(self) -> Seq<char> {
        self.output@
    }

    /// The position is within bounds, strictly so while work is pending.
    pub open spec fn wf(self) -> bool {
        self.spec_idx() <= self.spec_tokens().len() && (!(self.spec_pending() is Idle)
            ==> self.spec_idx() < self.spec_tokens().len())
    }

    /// A composer over the given request tokens, with nothing composed yet.
    pub fn new(tokens: Vec<String>) -> (r: Composer)
        ensures
            r.spec_tokens() == tokens.deep_view(),
            r.spec_idx() == 0,
            r.spec_pending() is Idle,
            r.spec_output() == Seq::<char>::empty(),
            r.wf(),
    {
        Composer { tokens, idx: 0, pending: Pending::Idle, output: String::new() }
    }

    /// The aggregate output composed so far.
    pub fn into_output(self) -> (r: String)
        ensures
            r@ == self.spec_output(),
    {
        self.output
    }

    /// Advance to the next outside work item. Skips tokens with empty names
    /// and tokens nothing can be suggested for; resolves the next token
    /// exactly or picks a suggestion to confirm; repeats the pending action
    /// when one is already outstanding.
    pub fn next_action(&mut self, file_map: &Catalog) -> (r: ComposeAction)
        requires
            old(self).wf(),
        ensures
            final(self).wf(),
            final(self).spec_tokens() == old(self).spec_tokens(),
            final(self).spec_output() == old(self).spec_output(),
            old(self).spec_pending() matches Pending::Fetch { url, .. } ==> *final(self) == *old(self)
                && (r matches ComposeAction::FetchBody { url: u } && u@ == url@),
            old(self).spec_pending() matches Pending::Confirm { query, name, .. } ==> *final(self)
                == *old(self) && (r matches ComposeAction::AskUser { prompt } && prompt@
                == prompt_text(query@, name@)),
            (old(self).spec_pending() is Idle) ==> final(self).spec_idx() == first_actionable(
                file_map@,
                old(self).spec_tokens(),
                old(self).spec_idx(),
            ),
            (old(self).spec_pending() is Idle && first_actionable(
                file_map@,
                old(self).spec_tokens(),
                old(self).spec_idx(),
            ) == old(self).spec_tokens().len()) ==> (r is Done) && (final(self).spec_pending() is Idle),
            (old(self).spec_pending() is Idle && first_actionable(
                file_map@,
                old(self).spec_tokens(),
                old(self).spec_idx(),
            ) < old(self).spec_tokens().len() && resolves_exact(
                file_map@,
                old(self).spec_tokens()[first_actionable(
                    file_map@,
                    old(self).spec_tokens(),
                    old(self).spec_idx(),
                )],
            )) ==> {
                let t = old(self).spec_tokens()[final(self).spec_idx()];
                &&& (final(self).spec_pending() matches Pending::Fetch { prefix, name, url }
                    && opt_view(prefix) == req_prefix(t) && name@ == req_name(t) && Option::Some(
                    url@,
                ) == spec_get(file_map@, req_name(t)))
                &&& (r matches ComposeAction::FetchBody { url: u } && Option::Some(u@) == spec_get(
                    file_map@,
                    req_name(t),
                ))
            },
            (old(self).spec_pending() is Idle && first_actionable(
                file_map@,
                old(self).spec_tokens(),
                old(self).spec_idx(),
            ) < old(self).spec_tokens().len() && !resolves_exact(
                file_map@,
                old(self).spec_tokens()[first_actionable(
                    file_map@,
                    old(self).spec_tokens(),
                    old(self).spec_idx(),
                )],
            )) ==> {
                let t = old(self).spec_tokens()[final(self).spec_idx()];
                &&& (final(self).spec_pending() matches Pending::Confirm { prefix, query, name }
                    && opt_view(prefix) == req_prefix(t) && query@ == req_name(t) && (exists|
                    bi: int,
                |
                    is_first_best(req_name(t), spec_keys(file_map@), bi) && name@ == spec_keys(
                        file_map@,
                    )[bi]))
                &&& (r matches ComposeAction::AskUser { prompt } && (final(self).spec_pending()
                    matches Pending::Confirm { query, name, .. } && prompt@ == prompt_text(
                    query@,
                    name@,
                )))
            },
    {
        match &self.pending {
            Pending::Fetch { url, .. } => {
                let u = url.clone();
                return ComposeAction::FetchBody { url: u };
            },
            Pending::Confirm { query, name, .. } => {
                let prompt = confirmation_prompt(query.as_str(), name.as_str());
                return ComposeAction::AskUser { prompt };
            },
            Pending::Idle => {},
        }
        let ghost toks = self.tokens.deep_view();
        let ghost start = self.idx as int;
        let n = self.tokens.len();
        proof {
            crate::chars::lemma_deep_view_index_str(self.tokens);
        }
        while self.idx < n
            invariant
                old(self).spec_pending() is Idle,
                toks == old(self).spec_tokens(),
                start == old(self).spec_idx(),
                self.tokens.deep_view() == toks,
                toks.len() == n,
                self.tokens@.len() == n,
                forall|k: int| 0 <= k < n ==> #[trigger] toks[k] == self.tokens@[k]@,
                start <= self.idx as int <= n,
                self.pending is Idle,
                self.output == old(self).output,
                self.tokens == old(self).tokens,
                first_actionable(file_map@, toks, start) == first_actionable(
                    file_map@,
                    toks,
                    self.idx as int,
                ),
            decreases n - self.idx,
        {
            let ghost i = self.idx as int;
            let token = &self.tokens[self.idx];
            let parts = split_request(token.as_str());
            let prefix = parts.0;
            let name = parts.1;
            if name.as_str().is_empty() {
                proof {
                    assert(!actionable(file_map@, toks[i]));
                }
                self.idx = self.idx + 1;
                continue;
            }
            match file_map.get(name.as_str()) {
                Some(u) => {
                    let url = u.clone();
                    let action_url = url.clone();
                    self.pending = Pending::Fetch { prefix, name, url };
                    proof {
                        assert(actionable(file_map@, toks[i]));
                        assert(first_actionable(file_map@, toks, i) == i);
                    }
                    return ComposeAction::FetchBody { url: action_url };
                },
                None => {
                    match best_match(file_map, name.as_str()) {
                        Some(sugg) => {
                            let prompt = confirmation_prompt(name.as_str(), sugg.as_str());
                            self.pending = Pending::Confirm { prefix, query: name, name: sugg };
                            proof {
                                assert(actionable(file_map@, toks[i]));
                                assert(first_actionable(file_map@, toks, i) == i);
                            }
                            return ComposeAction::AskUser { prompt };
                        },
                        None => {
                            proof {
                                assert(file_map@.len() == 0);
                                assert(!actionable(file_map@, toks[i]));
                            }
                            self.idx = self.idx + 1;
                        },
                    }
                },
            }
        }
        proof {
            assert(first_actionable(file_map@, toks, self.idx as int) == toks.len());
        }
        ComposeAction::Done
    }

    /// Feed back a fetched template body: it is formatted under the pending
    /// token's prefix and name and appended to the aggregate; without a
    /// pending fetch nothing changes.
    pub fn on_body(&mut self, body: &str)
        requires
            old(self).wf(),
        ensures
            final(self).wf(),
            final(self).spec_tokens() == old(self).spec_tokens(),
            old(self).spec_pending() matches Pending::Fetch { prefix, name, .. } ==> {
                &&& final(self).spec_output() == old(self).spec_output() + formatted_template(
                    body@,
                    opt_view(prefix),
                    name@,
                )
                &&& final(self).spec_idx() == old(self).spec_idx() + 1
                &&& final(self).spec_pending() is Idle
            },
            !(old(self).spec_pending() matches Pending::Fetch { .. }) ==> *final(self) == *old(self),
    {
        let info: Option<(Option<String>, String)> = match &self.pending {
            Pending::Fetch { prefix, name, .. } => {
                let p = match prefix {
                    Some(s) => Some(s.clone()),
                    None => None,
                };
                Some((p, name.clone()))
            },
            _ => None,
        };
        let n = self.tokens.len();
        match info {
            Some((pf, nm)) => {
                proof {
                    assert(!(self.spec_pending() is Idle));
                    assert(self.idx < n);
                }
                let block = format_gitignore(
                    body,
                    match &pf {
                        Some(s) => Some(s.as_str()),
                        None => None,
                    },
                    nm.as_str(),
                );
                self.output.append(block.as_str());
                self.idx = self.idx + 1;
                self.pending = Pending::Idle;
            },
            None => {},
        }
    }

    /// Feed back the user's answer line to a pending suggestion: acceptance
    /// turns the suggestion into a pending fetch of its body; anything else
    /// skips the token; without a pending suggestion nothing changes.
    pub fn on_answer(&mut self, file_map: &Catalog, line: &str)
        requires
            old(self).wf(),
        ensures
            final(self).wf(),
            final(self).spec_tokens() == old(self).spec_tokens(),
            final(self).spec_output() == old(self).spec_output(),
            old(self).spec_pending() matches Pending::Confirm { prefix, query, name } ==> {
                let accepted = trim_ws(line@) == seq!['y'] || trim_ws(line@) == seq!['Y'];
                &&& (accepted && spec_get(file_map@, name@) is Some ==> (final(self).spec_pending()
                    matches Pending::Fetch { prefix: p2, name: n2, url } && opt_view(p2)
                    == opt_view(prefix) && n2@ == name@ && Option::Some(url@) == spec_get(
                    file_map@,
                    name@,
                )) && final(self).spec_idx() == old(self).spec_idx())
                &&& (!(accepted && spec_get(file_map@, name@) is Some) ==> final(self).spec_pending()
                    is Idle && final(self).spec_idx() == old(self).spec_idx() + 1)
            },
            !(old(self).spec_pending() matches Pending::Confirm { .. }) ==> *final(self) == *old(self),
    {
        let info: Option<(Option<String>, String)> = match &self.pending {
            Pending::Confirm { prefix, name, .. } => {
                let p = match prefix {
                    Some(s) => Some(s.clone()),
                    None => None,
                };
                Some((p, name.clone()))
            },
            _ => None,
        };
        let n = self.tokens.len();
        match info {
            Some((pf, nm)) => {
                proof {
                    assert(!(self.spec_pending() is Idle));
                    assert(self.idx < n);
                }
                if is_affirmative(line) {
                    match file_map.get(nm.as_str()) {
                        Some(u) => {
                            let url = u.clone();
                            self.pending = Pending::Fetch { prefix: pf, name: nm, url };
                        },
                        None => {
                            self.pending = Pending::Idle;
                            self.idx = self.idx + 1;
                        },
                    }
                } else {
                    self.pending = Pending::Idle;
                    self.idx = self.idx + 1;
                }
            },
            None => {},
        }
    }
}

/// Law: composing zero requests yields an empty aggregate. A fresh composer
/// over no tokens answers `Done` at once, its output still empty: there is no
/// position at which work could be demanded.
pub proof fn lemma_compose_empty(cat: Seq<(Seq<char>, Seq<char>)>, toks: Seq<Seq<char>>)
    requires
        toks.len() == 0,
    ensures
        first_actionable(cat, toks, 0) == 0,
{
}

} // verus!
