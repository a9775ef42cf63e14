//! Template formatting: rewrite a raw template body line by line with an
//! optional path prefix, preserving comments, blank lines and negation
//! markers, and wrap the result with a generated header.

use vstd::prelude::*;

use crate::chars::{
    append_chars, clone_chars, join_chars, join_with, lemma_deep_view_index, split_chars, split_on,
    string_from_chars, to_chars,
};
use crate::paths::{normalize_chars, normalize_path};
use crate::text::is_ascii_ws;

verus! {

/// What `str::to_uppercase` returns; it depends on the characters alone.
pub uninterp spec fn upper_of(s: Seq<char>) -> Seq<char>;

/// Relies on `str::to_uppercase`: the result is a function of the characters
/// alone, and an empty string stays empty.
#[verifier::external_body]
fn to_upper(s: &str) -> (r: String)
    ensures
        r@ == upper_of(s@),
        s@.len() == 0 ==> r@.len() == 0,
{
    s.to_uppercase()
}

/// A line with a carriage return left by a `\r\n` ending removed.
pub open spec fn strip_cr(l: Seq<char>) -> Seq<char> {
    if l.len() > 0 && l.last() == '\r' {
        l.drop_last()
    } else {
        l
    }
}

/// The lines of a body: split at `\n`, a final line ending optional, and a
/// `\r` preceding any `\n` dropped.
pub open spec fn lines_of(s: Seq<char>) -> Seq<Seq<char>> {
    let parts = split_on(s, '\n');
    if parts.last().len() == 0 {
        parts.drop_last().map_values(|l: Seq<char>| strip_cr(l))
    } else {
        parts.drop_last().map_values(|l: Seq<char>| strip_cr(l)).push(parts.last())
    }
}

/// The first character of a line that is not ASCII whitespace.
pub open spec fn first_non_ws(l: Seq<char>) -> Option<char>
    decreases l.len(),
{
    if l.len() == 0 {
        Option::None
    } else if is_ascii_ws(l[0]) {
        first_non_ws(l.drop_first())
    } else {
        Option::Some(l[0])
    }
}

/// A line whose first non-whitespace character is the comment marker, or
/// which has none at all, is copied verbatim.
pub open spec fn is_comment_or_blank(l: Seq<char>) -> bool {
    first_non_ws(l) == Option::Some('#') || first_non_ws(l) is None
}

/// Join a prefix path and a pattern with exactly one separator between them.
pub open spec fn path_join(prefix: Seq<char>, rest: Seq<char>) -> Seq<char> {
    if prefix.len() == 0 {
        rest
    } else if prefix.last() == '/' {
        prefix + rest
    } else {
        prefix + seq!['/'] + rest
    }
}

/// One body line rewritten under a prefix path: comments and blanks verbatim;
/// otherwise the negation marker is set aside, one leading separator is
/// dropped, the prefix is joined on, the result normalized, and the negation
/// marker restored.
pub open spec fn process_line(l: Seq<char>, prefix: Seq<char>) -> Seq<char> {
    if is_comment_or_blank(l) {
        l
    } else {
        let neg = l.len() > 0 && l[0] == '!';
        let l1 = if neg {
            l.drop_first()
        } else {
            l
        };
        let l2 = if l1.len() > 0 && l1[0] == '/' {
            l1.drop_first()
        } else {
            l1
        };
        let rewritten = normalize_path(path_join(prefix, l2));
        if neg {
            seq!['!'] + rewritten
        } else {
            rewritten
        }
    }
}

/// The processed body: unchanged without a prefix; with one, every line
/// rewritten and the lines joined by single newlines.
pub open spec fn formatted_body(body: Seq<char>, prefix: Option<Seq<char>>) -> Seq<char> {
    match prefix {
        Option::None => body,
        Option::Some(p) => join_with(
            lines_of(body).map_values(|l: Seq<char>| process_line(l, p)),
            '\n',
        ),
    }
}

/// The whole formatted block: header line naming the language in uppercase,
/// a blank line, the processed body, and two trailing newlines.
pub open spec fn formatted_template(
    body: Seq<char>,
    prefix: Option<Seq<char>>,
    language: Seq<char>,
) -> Seq<char> {
    "# "@ + upper_of(language) + " gitignore generated by Blindfold\n\n"@ + formatted_body(
        body,
        prefix,
    ) + "\n\n"@
}

/// The lines of a body as character vectors.
fn split_lines(v: &Vec<char>) -> (r: Vec<Vec<char>>)
    ensures
        r.deep_view() == lines_of(v@),
{
    let mut parts = split_chars(v, '\n');
    proof {
        crate::chars::lemma_split_on_nonempty(v@, '\n');
        lemma_deep_view_index(parts);
    }
    let ghost whole = parts.deep_view();
    let tail = match parts.pop() {
        Some(t) => t,
        None => Vec::new(),
    };
    proof {
        lemma_deep_view_index(parts);
        assert(parts.deep_view() =~~= whole.drop_last());
        assert(tail@ == whole.last());
    }
    let mut out: Vec<Vec<char>> = Vec::new();
    let mut i: usize = 0;
    let n = parts.len();
    while i < n
        invariant
            i <= n,
            n == parts.deep_view().len(),
            parts.deep_view() == whole.drop_last(),
            out.deep_view().len() == i,
            forall|k: int|
                0 <= k < i ==> #[trigger] out.deep_view()[k] == strip_cr(parts.deep_view()[k]),
        decreases n - i,
    {
        proof {
            lemma_deep_view_index(parts);
        }
        let ghost old_loop_out = out@;
        let line = &parts[i];
        let stripped: Vec<char> = if line.len() > 0 && line[line.len() - 1] == '\r' {
            let mut c = clone_chars(line);
            c.pop();
            proof {
                assert(c@ =~= strip_cr(parts.deep_view()[i as int]));
            }
            c
        } else {
            let c = clone_chars(line);
            proof {
                assert(c@ == strip_cr(parts.deep_view()[i as int]));
            }
            c
        };
        proof {
            lemma_deep_view_index(out);
        }
        let ghost pre_deep = out.deep_view();
        out.push(stripped);
        i = i + 1;
        proof {
            lemma_deep_view_index(out);
            assert forall|k: int|
                0 <= k < i implies #[trigger] out.deep_view()[k] == strip_cr(
                parts.deep_view()[k],
            ) by {
                assert(out.deep_view()[k] == out@[k]@);
                if k < i - 1 {
                    assert(out@[k] == old_loop_out[k]);
                    assert(pre_deep[k] == old_loop_out[k]@);
                    assert(pre_deep[k] == strip_cr(parts.deep_view()[k]));
                } else {
                    assert(out@[k] == stripped);
                }
            }
        }
    }
    if tail.len() > 0 {
        proof {
            lemma_deep_view_index(out);
        }
        let ghost pre_tail = out@;
        let ghost pre_deep2 = out.deep_view();
        out.push(tail);
        proof {
            lemma_deep_view_index(out);
            assert forall|k: int| 0 <= k < pre_tail.len() implies #[trigger] out.deep_view()[k]
                == strip_cr(parts.deep_view()[k]) by {
                assert(out.deep_view()[k] == out@[k]@);
                assert(out@[k] == pre_tail[k]);
                assert(pre_deep2[k] == pre_tail[k]@);
                assert(pre_deep2[k] == strip_cr(parts.deep_view()[k]));
            }
            assert(out.deep_view() =~~= whole.drop_last().map_values(
                |l: Seq<char>| strip_cr(l),
            ).push(whole.last()));
            assert(whole.last().len() > 0);
        }
    } else {
        proof {
            assert(out.deep_view() =~~= whole.drop_last().map_values(|l: Seq<char>| strip_cr(l)));
            assert(whole.last().len() == 0);
        }
    }
    out
}

/// The first character of the line that is not ASCII whitespace, if any.
fn first_non_ws_char(l: &Vec<char>) -> (r: Option<char>)
    ensures
        r == first_non_ws(l@),
{
    let mut i: usize = 0;
    proof {
        assert(l@.skip(0) =~= l@);
    }
    while i < l.len()
        invariant
            i <= l@.len(),
            first_non_ws(l@) == first_non_ws(l@.skip(i as int)),
        decreases l@.len() - i,
    {
        proof {
            assert(l@.skip(i as int)[0] == l@[i as int]);
            assert(l@.skip(i as int).drop_first() =~= l@.skip(i + 1));
        }
        let c = l[i];
        if !(c == ' ' || c == '\t' || c == '\n' || c == '\x0C' || c == '\r') {
            return Some(c);
        }
        i = i + 1;
    }
    proof {
        assert(l@.skip(l@.len() as int) =~= Seq::<char>::empty());
    }
    None
}

/// Rewrite one body line under a prefix path.
fn process_line_chars(l: &Vec<char>, prefix: &Vec<char>) -> (r: Vec<char>)
    ensures
        r@ == process_line(l@, prefix@),
{
    let head = first_non_ws_char(l);
    let comment_or_blank = match head {
        Some(c) => c == '#',
        None => true,
    };
    if comment_or_blank {
        return clone_chars(l);
    }
    let neg = l.len() > 0 && l[0] == '!';
    let mut start: usize = if neg {
        1
    } else {
        0
    };
    let ghost l1 = if neg {
        l@.drop_first()
    } else {
        l@
    };
    proof {
        assert(l1 =~= l@.skip(start as int));
    }
    if start < l.len() && l[start] == '/' {
        start = start + 1;
    }
    let ghost l2 = if l1.len() > 0 && l1[0] == '/' {
        l1.drop_first()
    } else {
        l1
    };
    proof {
        assert(l2 =~= l@.skip(start as int));
    }
    let mut rest: Vec<char> = Vec::new();
    let mut i: usize = start;
    while i < l.len()
        invariant
            start <= i <= l@.len(),
            rest@ == l@.subrange(start as int, i as int),
        decreases l@.len() - i,
    {
        rest.push(l[i]);
        i = i + 1;
        proof {
            assert(rest@ =~= l@.subrange(start as int, i as int));
        }
    }
    proof {
        assert(rest@ =~= l2);
    }
    let mut joined: Vec<char> = Vec::new();
    if prefix.len() == 0 {
        append_chars(&mut joined, &rest);
        proof {
            assert(joined@ =~= path_join(prefix@, l2));
        }
    } else {
        append_chars(&mut joined, prefix);
        if prefix[prefix.len() - 1] != '/' {
            joined.push('/');
            proof {
                assert(joined@ =~= prefix@ + seq!['/']);
            }
        }
        append_chars(&mut joined, &rest);
        proof {
            if prefix@.last() == '/' {
                assert(joined@ =~= path_join(prefix@, l2));
            } else {
                assert(joined@ =~= (prefix@ + seq!['/']) + l2);
                assert((prefix@ + seq!['/']) + l2 =~= prefix@ + seq!['/'] + l2);
            }
        }
    }
    let rewritten = normalize_chars(&joined);
    if neg {
        let mut res: Vec<char> = Vec::new();
        res.push('!');
        append_chars(&mut res, &rewritten);
        proof {
            assert(res@ =~= seq!['!'] + normalize_path(path_join(prefix@, l2)));
        }
        res
    } else {
        rewritten
    }
}

/// Format one raw template body: with a prefix path every pattern line is
/// rewritten under it; the result is wrapped with the generated header line,
/// a blank line, and two trailing newlines. Without a prefix the body passes
/// through verbatim between header and trailer.
pub fn format_gitignore(raw_body: &str, prefix_path: Option<&str>, language: &str) -> (r: String)
    ensures
        r@ == formatted_template(
            raw_body@,
            match prefix_path {
                Option::Some(p) => Option::Some(p@),
                Option::None => Option::None,
            },
            language@,
        ),
{
    let body: String = match prefix_path {
        None => raw_body.to_owned(),
        Some(p) => {
            let chars = to_chars(raw_body);
            let lines = split_lines(&chars);
            let pchars = to_chars(p);
            let mut outs: Vec<Vec<char>> = Vec::new();
            let mut i: usize = 0;
            let n = lines.len();
            while i < n
                invariant
                    i <= n,
                    n == lines.deep_view().len(),
                    lines.deep_view() == lines_of(raw_body@),
                    pchars@ == p@,
                    outs.deep_view().len() == i,
                    forall|k: int|
                        0 <= k < i ==> #[trigger] outs.deep_view()[k] == process_line(
                            lines.deep_view()[k],
                            p@,
                        ),
                decreases n - i,
            {
                proof {
                    lemma_deep_view_index(lines);
                }
                let processed = process_line_chars(&lines[i], &pchars);
                proof {
                    lemma_deep_view_index(outs);
                }
                let ghost pre_outs = outs@;
                let ghost pre_deep3 = outs.deep_view();
                outs.push(processed);
                i = i + 1;
                proof {
                    lemma_deep_view_index(outs);
                    assert forall|k: int|
                        0 <= k < i implies #[trigger] outs.deep_view()[k] == process_line(
                        lines.deep_view()[k],
                        p@,
                    ) by {
                        assert(outs.deep_view()[k] == outs@[k]@);
                        if k < i - 1 {
                            assert(outs@[k] == pre_outs[k]);
                            assert(pre_deep3[k] == pre_outs[k]@);
                            assert(pre_deep3[k] == process_line(lines.deep_view()[k], p@));
                        } else {
                            assert(outs@[k] == processed);
                        }
                    }
                }
            }
            proof {
                assert(outs.deep_view() =~~= lines_of(raw_body@).map_values(
                    |l: Seq<char>| process_line(l, p@),
                ));
            }
            let joined = join_chars(&outs, '\n');
            string_from_chars(&joined)
        },
    };
    let up = to_upper(language);
    let mut out = String::new();
    out.append("# ");
    out.append(up.as_str());
    out.append(" gitignore generated by Blindfold\n\n");
    out.append(body.as_str());
    out.append("\n\n");
    proof {
        assert(out@ =~= formatted_template(
            raw_body@,
            match prefix_path {
                Option::Some(p) => Option::Some(p@),
                Option::None => Option::None,
            },
            language@,
        ));
    }
    out
}

} // verus!
