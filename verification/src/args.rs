//! Tokenizing a command line: the maximal whitespace-free runs, in order,
//! ready to hand to a process spawner.

use vstd::prelude::*;

verus! {

/// What `char::is_whitespace` returns: the character class depends on the
/// character alone.
pub uninterp spec fn whitespace_char(c: char) -> bool;

/// Relies on char::is_whitespace to classify one character.
#[verifier::external_body]
fn is_space(c: char) -> (r: bool)
    ensures
        r == whitespace_char(c),
{
    c.is_whitespace()
}

/// The whitespace-separated tokens of `s`: every maximal run of
/// non-whitespace characters, in order.
pub open spec fn split_ws(s: Seq<char>) -> Seq<Seq<char>>
    decreases s.len(),
{
    if s.len() == 0 {
        Seq::empty()
    } else {
        let rest = split_ws(s.drop_last());
        let c = s.last();
        if whitespace_char(c) {
            rest
        } else if s.len() >= 2 && !whitespace_char(s[s.len() - 2]) {
            rest.update(rest.len() - 1, rest.last().push(c))
        } else {
            rest.push(seq![c])
        }
    }
}

/// The strings' characters, for contracts over string vectors.
pub open spec fn strs_view(v: Seq<String>) -> Seq<Seq<char>> {
    v.map_values(|x: String| x@)
}

/// Splits a command line into its whitespace-separated tokens.
pub fn split_args(s: &str) -> (args: Vec<String>)
    ensures
        strs_view(args@) == split_ws(s@),
{
    let chars = crate::template::chars_of(s);
    let n = chars.len();
    let mut args: Vec<String> = Vec::new();
    let mut cur = String::new();
    let mut i: usize = 0;
    while i < n
        invariant
            i <= n == chars@.len(),
            chars@ == s@,
            i == 0 ==> cur@.len() == 0,
            i > 0 ==> (cur@.len() > 0 <==> !whitespace_char(s@[i - 1])),
            split_ws(s@.take(i as int)) == (if cur@.len() == 0 {
                strs_view(args@)
            } else {
                strs_view(args@).push(cur@)
            }),
        decreases n - i,
    {
        let ghost pre_args = args@;
        let ghost pre_cur = cur@;
        let c = chars[i];
        proof {
            assert(s@.take(i + 1).drop_last() =~= s@.take(i as int));
            assert(s@.take(i + 1).last() == s@[i as int]);
            if i > 0 {
                assert(s@.take(i + 1)[i - 1] == s@[i - 1]);
            }
        }
        if is_space(c) {
            if !cur.as_str().is_empty() {
                args.push(cur);
                cur = String::new();
                proof {
                    assert(strs_view(args@) =~= strs_view(pre_args).push(pre_cur));
                }
            }
        } else {
            let had = !cur.as_str().is_empty();
            cur.push(c);
            proof {
                let full = split_ws(s@.take(i + 1));
                if had {
                    let rest = split_ws(s@.take(i as int));
                    assert(rest == strs_view(pre_args).push(pre_cur));
                    assert(rest.len() > 0);
                    assert(full == rest.update(rest.len() - 1, rest.last().push(s@[i as int])));
                    assert(full =~= strs_view(args@).push(cur@));
                } else {
                    assert(full == split_ws(s@.take(i as int)).push(seq![s@[i as int]]));
                    assert(cur@ =~= seq![s@[i as int]]);
                }
            }
        }
        i += 1;
    }
    proof {
        assert(s@.take(n as int) =~= s@);
    }
    if !cur.as_str().is_empty() {
        let ghost pre_args = args@;
        let ghost pre_cur = cur@;
        args.push(cur);
        proof {
            assert(strs_view(args@) =~= strs_view(pre_args).push(pre_cur));
        }
    }
    args
}

} // verus!
