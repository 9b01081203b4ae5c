use vstd::prelude::*;

verus! {

use vstd::string::StringExecFns;
use vstd::string::StrSliceExecFns;

/// The views of a sequence of strings, element by element.
pub open spec fn seq_views(v: Seq<String>) -> Seq<Seq<char>> {
    Seq::new(v.len(), |i: int| v[i]@)
}

/// The character for one decimal digit.
pub open spec fn digit_char(d: nat) -> char {
    if d == 0 {
        '0'
    } else if d == 1 {
        '1'
    } else if d == 2 {
        '2'
    } else if d == 3 {
        '3'
    } else if d == 4 {
        '4'
    } else if d == 5 {
        '5'
    } else if d == 6 {
        '6'
    } else if d == 7 {
        '7'
    } else if d == 8 {
        '8'
    } else {
        '9'
    }
}

/// The base-10 rendering of a number: no sign, no leading zeros.
pub open spec fn spec_decimal(n: nat) -> Seq<char>
    decreases n,
{
    if n < 10 {
        seq![digit_char(n)]
    } else {
        spec_decimal(n / 10).push(digit_char(n % 10))
    }
}

/// Relies on `usize`'s `to_string` (through `core::fmt`): the base-10
/// digits of the value, without sign or leading zeros.
#[verifier::external_body]
pub fn usize_to_string(n: usize) -> (r: String)
    ensures
        r@ == spec_decimal(n as nat),
{
    n.to_string()
}

/// Builds a message of the shape `{prefix}{a}{mid}{b}{suffix}`.
pub fn two_num_message(prefix: &str, a: usize, mid: &str, b: usize, suffix: &str) -> (r: String)
    ensures
        r@ == prefix@ + spec_decimal(a as nat) + mid@ + spec_decimal(b as nat) + suffix@,
{
    let mut m = prefix.to_owned();
    let sa = usize_to_string(a);
    m.append(sa.as_str());
    m.append(mid);
    let sb = usize_to_string(b);
    m.append(sb.as_str());
    m.append(suffix);
    m
}

/// The fields of `s`, split at every occurrence of `sep`; separators are
/// not kept, empty fields are, so there is always at least one field.
pub open spec fn spec_split(s: Seq<char>, sep: char) -> Seq<Seq<char>>
    decreases s.len(),
{
    if s.len() == 0 {
        seq![Seq::<char>::empty()]
    } else {
        let rest = spec_split(s.drop_last(), sep);
        if s.last() == sep {
            rest.push(Seq::<char>::empty())
        } else {
            rest.update(rest.len() - 1, rest.last().push(s.last()))
        }
    }
}

pub proof fn lemma_split_nonempty(s: Seq<char>, sep: char)
    ensures
        spec_split(s, sep).len() >= 1,
    decreases s.len(),
{
    if s.len() != 0 {
        lemma_split_nonempty(s.drop_last(), sep);
    }
}

/// Splits a string at every occurrence of `sep`.
pub fn split_fields(s: &str, sep: char) -> (r: Vec<String>)
    ensures
        seq_views(r@) == spec_split(s@, sep),
        r@.len() >= 1,
{
    let n = s.unicode_len();
    let mut done: Vec<String> = Vec::new();
    let mut current: String = String::new();
    let mut i: usize = 0;
    while i < n
        invariant
            i <= n,
            n == s@.len(),
            seq_views(done@).push(current@) == spec_split(s@.take(i as int), sep),
        decreases n - i,
    {
        proof {
            assert(s@.take(i as int + 1).drop_last() =~= s@.take(i as int));
            assert(s@.take(i as int + 1).last() == s@[i as int]);
            lemma_split_nonempty(s@.take(i as int), sep);
        }
        let ghost old_done = done@;
        let ghost old_cur = current@;
        let c = s.get_char(i);
        if c == sep {
            done.push(current);
            current = String::new();
            proof {
                assert(seq_views(done@) =~~= seq_views(old_done).push(old_cur));
                assert(seq_views(done@).push(current@) =~~= spec_split(
                    s@.take(i as int + 1),
                    sep,
                ));
            }
        } else {
            let ch = s.substring_char(i, i + 1);
            current.append(ch);
            proof {
                assert(ch@ =~= seq![s@[i as int]]);
                assert(current@ =~= old_cur.push(s@[i as int]));
                let rest = spec_split(s@.take(i as int), sep);
                assert(rest.last() == old_cur);
                assert(seq_views(done@).push(current@) =~~= rest.update(
                    rest.len() - 1,
                    rest.last().push(s@[i as int]),
                ));
                assert(seq_views(done@).push(current@) =~~= spec_split(
                    s@.take(i as int + 1),
                    sep,
                ));
            }
        }
        i += 1;
    }
    let ghost old_done = done@;
    done.push(current);
    proof {
        assert(s@.take(n as int) =~= s@);
        assert(seq_views(done@) =~~= seq_views(old_done).push(current@));
    }
    done
}

/// One line's text with a single trailing carriage return removed.
pub open spec fn strip_cr(l: Seq<char>) -> Seq<char> {
    if l.len() >= 1 && l.last() == '\r' {
        l.drop_last()
    } else {
        l
    }
}

/// The sequences among `ls` that are not empty, in order.
pub open spec fn keep_nonempty(ls: Seq<Seq<char>>) -> Seq<Seq<char>>
    decreases ls.len(),
{
    if ls.len() == 0 {
        Seq::empty()
    } else {
        let rest = keep_nonempty(ls.drop_last());
        if ls.last().len() == 0 {
            rest
        } else {
            rest.push(ls.last())
        }
    }
}

/// The logical rows of a delimited text: its newline-separated lines,
/// each with a trailing carriage return removed, blank lines dropped.
pub open spec fn logical_rows(content: Seq<char>) -> Seq<Seq<char>> {
    keep_nonempty(spec_split(content, '\n').map_values(|l: Seq<char>| strip_cr(l)))
}

/// Splits a text into its logical rows.
pub fn split_rows(content: &str) -> (r: Vec<String>)
    ensures
        seq_views(r@) == logical_rows(content@),
{
    let lines = split_fields(content, '\n');
    let ghost mapped = spec_split(content@, '\n').map_values(|l: Seq<char>| strip_cr(l));
    let mut out: Vec<String> = Vec::new();
    let mut i: usize = 0;
    while i < lines.len()
        invariant
            i <= lines@.len(),
            seq_views(lines@) == spec_split(content@, '\n'),
            mapped == spec_split(content@, '\n').map_values(|l: Seq<char>| strip_cr(l)),
            seq_views(out@) == keep_nonempty(mapped.take(i as int)),
        decreases lines@.len() - i,
    {
        proof {
            assert(mapped.take(i as int + 1).drop_last() =~= mapped.take(i as int));
            assert(mapped.take(i as int + 1).last() == strip_cr(lines@[i as int]@));
        }
        let li: &String = &lines[i];
        let n = li.as_str().unicode_len();
        let stripped: String = if n >= 1 && li.as_str().get_char(n - 1) == '\r' {
            li.as_str().substring_char(0, n - 1).to_owned()
        } else {
            li.clone()
        };
        proof {
            assert(stripped@ =~= strip_cr(li@));
        }
        let ghost old_out = out@;
        if !stripped.as_str().is_empty() {
            out.push(stripped);
            proof {
                assert(seq_views(out@) =~~= seq_views(old_out).push(strip_cr(lines@[i as int]@)));
                assert(seq_views(out@) =~~= keep_nonempty(mapped.take(i as int + 1)));
            }
        } else {
            proof {
                assert(seq_views(out@) =~~= keep_nonempty(mapped.take(i as int + 1)));
            }
        }
        i += 1;
    }
    proof {
        assert(mapped.take(lines@.len() as int) =~= mapped);
    }
    out
}

/// Compares two strings character by character.
pub fn str_eq(a: &str, b: &str) -> (r: bool)
    ensures
        r == (a@ == b@),
{
    let na = a.unicode_len();
    let nb = b.unicode_len();
    if na != nb {
        return false;
    }
    let mut i: usize = 0;
    while i < na
        invariant
            i <= na,
            na == a@.len(),
            na == b@.len(),
            forall|j: int| 0 <= j < i ==> a@[j] == b@[j],
        decreases na - i,
    {
        if a.get_char(i) != b.get_char(i) {
            return false;
        }
        i += 1;
    }
    proof {
        assert(a@ =~= b@);
    }
    true
}

} // verus!
