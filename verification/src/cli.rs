use vstd::prelude::*;

verus! {

use crate::text::{keep_nonempty, seq_views, spec_split, split_fields};
use vstd::string::StrSliceExecFns;

/// Error type for failed parsing of command line arguments.
#[derive(Debug, Clone, PartialEq, Eq)]
pub struct ParseCliError(pub String);

/// ASCII whitespace, as trimmed from argument tokens.
pub open spec fn is_space(c: char) -> bool {
    c == ' ' || c == '\t' || c == '\r' || c == '\n'
}

pub open spec fn trim_front(s: Seq<char>) -> Seq<char>
    decreases s.len(),
{
    if s.len() > 0 && is_space(s[0]) {
        trim_front(s.drop_first())
    } else {
        s
    }
}

pub open spec fn trim_back(s: Seq<char>) -> Seq<char>
    decreases s.len(),
{
    if s.len() > 0 && is_space(s.last()) {
        trim_back(s.drop_last())
    } else {
        s
    }
}

/// `s` without leading and trailing whitespace.
pub open spec fn spec_trim(s: Seq<char>) -> Seq<char> {
    trim_back(trim_front(s))
}

fn is_space_char(c: char) -> (r: bool)
    ensures
        r == is_space(c),
{
    c == ' ' || c == '\t' || c == '\r' || c == '\n'
}

/// Removes leading and trailing whitespace.
pub fn trim(s: &str) -> (r: String)
    ensures
        r@ == spec_trim(s@),
{
    let n = s.unicode_len();
    proof {
        assert(s@.subrange(0, n as int) =~= s@);
    }
    let mut start: usize = 0;
    while start < n && is_space_char(s.get_char(start))
        invariant
            start <= n,
            n == s@.len(),
            trim_front(s@) == trim_front(s@.subrange(start as int, n as int)),
        decreases n - start,
    {
        proof {
            assert(s@.subrange(start as int, n as int).drop_first() =~= s@.subrange(
                start as int + 1,
                n as int,
            ));
        }
        start += 1;
    }
    proof {
        if start < n {
            assert(s@.subrange(start as int, n as int)[0] == s@[start as int]);
        }
        assert(trim_front(s@) == s@.subrange(start as int, n as int));
    }
    let mut end: usize = n;
    while end > start && is_space_char(s.get_char(end - 1))
        invariant
            start <= end <= n,
            n == s@.len(),
            trim_front(s@) == s@.subrange(start as int, n as int),
            spec_trim(s@) == trim_back(s@.subrange(start as int, end as int)),
        decreases end - start,
    {
        proof {
            assert(s@.subrange(start as int, end as int).drop_last() =~= s@.subrange(
                start as int,
                end as int - 1,
            ));
        }
        end -= 1;
    }
    proof {
        if end > start {
            assert(s@.subrange(start as int, end as int).last() == s@[end as int - 1]);
        }
    }
    let r = s.substring_char(start, end).to_owned();
    proof {
        assert(r@ == spec_trim(s@));
    }
    r
}

/// The tokens of one quote-delimited part: an unquoted part is trimmed
/// and split at blanks, each piece trimmed, empty pieces dropped; a
/// quoted part is one token, trimmed but kept verbatim otherwise.
pub open spec fn part_tokens(part: Seq<char>, quoted: bool) -> Seq<Seq<char>> {
    if quoted {
        seq![spec_trim(part)]
    } else {
        keep_nonempty(spec_split(spec_trim(part), ' ').map_values(|t: Seq<char>| spec_trim(t)))
    }
}

pub open spec fn tokens_upto(parts: Seq<Seq<char>>, n: int) -> Seq<Seq<char>>
    decreases n,
{
    if n <= 0 {
        Seq::empty()
    } else {
        tokens_upto(parts, n - 1) + part_tokens(parts[n - 1], (n - 1) % 2 == 1)
    }
}

/// The argv-style tokens of a command line: the text split at double
/// quotes, the parts alternating unquoted and quoted, the first unquoted.
pub open spec fn cli_tokens(s: Seq<char>) -> Seq<Seq<char>> {
    let parts = spec_split(s, '"');
    tokens_upto(parts, parts.len() as int)
}

/// Splits a command line into argv-style tokens: text between blanks,
/// except that double quotes group one token; this never fails.
pub fn split_args(input: &str) -> (r: Vec<String>)
    ensures
        seq_views(r@) == cli_tokens(input@),
{
    let parts = split_fields(input, '"');
    let mut out: Vec<String> = Vec::new();
    let mut i: usize = 0;
    while i < parts.len()
        invariant
            i <= parts@.len(),
            seq_views(parts@) == spec_split(input@, '"'),
            seq_views(out@) == tokens_upto(spec_split(input@, '"'), i as int),
        decreases parts@.len() - i,
    {
        let part = trim(parts[i].as_str());
        let ghost prev = seq_views(out@);
        proof {
            assert(seq_views(parts@)[i as int] == parts@[i as int]@);
        }
        if i % 2 == 1 {
            out.push(part);
            proof {
                assert(seq_views(out@) =~~= prev + part_tokens(parts@[i as int]@, true));
                assert(seq_views(out@) =~~= tokens_upto(spec_split(input@, '"'), i as int + 1));
            }
        } else {
            let toks = split_fields(part.as_str(), ' ');
            let ghost mapped = spec_split(spec_trim(parts@[i as int]@), ' ').map_values(
                |t: Seq<char>| spec_trim(t),
            );
            let mut j: usize = 0;
            while j < toks.len()
                invariant
                    j <= toks@.len(),
                    seq_views(toks@) == spec_split(spec_trim(parts@[i as int]@), ' '),
                    mapped == spec_split(spec_trim(parts@[i as int]@), ' ').map_values(
                        |t: Seq<char>| spec_trim(t),
                    ),
                    seq_views(out@) == prev + keep_nonempty(mapped.take(j as int)),
                decreases toks@.len() - j,
            {
                let t = trim(toks[j].as_str());
                proof {
                    assert(mapped.take(j as int + 1).drop_last() =~= mapped.take(j as int));
                    assert(mapped.take(j as int + 1).last() == spec_trim(toks@[j as int]@));
                }
                let ghost prev_out = seq_views(out@);
                if !t.as_str().is_empty() {
                    out.push(t);
                    proof {
                        assert(seq_views(out@) =~~= prev_out.push(spec_trim(toks@[j as int]@)));
                        assert(seq_views(out@) =~~= prev + keep_nonempty(mapped.take(j as int + 1)));
                    }
                } else {
                    proof {
                        assert(seq_views(out@) =~~= prev + keep_nonempty(mapped.take(j as int + 1)));
                    }
                }
                j += 1;
            }
            proof {
                assert(mapped.take(toks@.len() as int) =~= mapped);
                assert(seq_views(out@) =~~= prev + part_tokens(parts@[i as int]@, false));
                assert(seq_views(out@) =~~= tokens_upto(spec_split(input@, '"'), i as int + 1));
            }
        }
        i += 1;
    }
    out
}

} // verus!
