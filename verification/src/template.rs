//! Template commands: finding `{{name}}` placeholders in a saved command
//! and filling them in. A placeholder name is a run of word characters
//! between double braces; a backslash right before it escapes it.

use vstd::prelude::*;

verus! {

/// A placeholder name is made of these characters.
pub open spec fn is_word_char(c: char) -> bool {
    ('a' <= c && c <= 'z') || ('A' <= c && c <= 'Z') || ('0' <= c && c <= '9') || c == '_'
}

/// A placeholder with a name of length `k` starts at position `p`:
/// `{{`, then `k` word characters, then `}}`.
pub open spec fn template_at(s: Seq<char>, p: int, k: int) -> bool {
    &&& 0 <= p && 1 <= k && p + k + 4 <= s.len()
    &&& s[p] == '{' && s[p + 1] == '{'
    &&& forall|t: int| p + 2 <= t < p + 2 + k ==> is_word_char(#[trigger] s[t])
    &&& s[p + 2 + k] == '}' && s[p + 3 + k] == '}'
}

/// A placeholder that is not escaped by a preceding backslash.
pub open spec fn unescaped_template_at(s: Seq<char>, p: int, k: int) -> bool {
    template_at(s, p, k) && (p == 0 || s[p - 1] != '\\')
}

/// The name of the placeholder at `p` with name length `k`.
pub open spec fn param_at(s: Seq<char>, p: int, k: int) -> Seq<char> {
    s.subrange(p + 2, p + 2 + k)
}

/// `w` names an unescaped placeholder somewhere in `s`.
pub open spec fn is_param_of(s: Seq<char>, w: Seq<char>) -> bool {
    exists|p: int, k: int| unescaped_template_at(s, p, k) && w == param_at(s, p, k)
}

/// A command is a template when it holds at least one unescaped
/// placeholder.
pub open spec fn has_template(s: Seq<char>) -> bool {
    exists|p: int, k: int| unescaped_template_at(s, p, k)
}

/// `s` with every occurrence of `pat` replaced by `rep`, scanning left to
/// right over non-overlapping occurrences.
pub open spec fn replace_all(s: Seq<char>, pat: Seq<char>, rep: Seq<char>) -> Seq<char>
    decreases s.len(),
{
    if pat.len() == 0 || s.len() < pat.len() {
        s
    } else if s.take(pat.len() as int) == pat {
        rep + replace_all(s.skip(pat.len() as int), pat, rep)
    } else {
        seq![s[0]] + replace_all(s.skip(1), pat, rep)
    }
}

/// The name `w` as it appears in a command: between double braces.
pub open spec fn wrapped(w: Seq<char>) -> Seq<char> {
    seq!['{', '{'] + w + seq!['}', '}']
}

/// The name/value pairs of an interpolation, as character sequences.
pub open spec fn pairs_view(values: Seq<(String, String)>) -> Seq<(Seq<char>, Seq<char>)> {
    Seq::new(values.len(), |i: int| (values[i].0@, values[i].1@))
}

/// The command with each pair's wrapped name replaced by its value, pair
/// by pair in the given order, and escaping backslashes removed at the
/// end.
pub open spec fn interpolated(s: Seq<char>, pairs: Seq<(Seq<char>, Seq<char>)>) -> Seq<char>
    decreases pairs.len(),
{
    if pairs.len() == 0 {
        replace_all(s, seq!['\\', '{', '{'], seq!['{', '{'])
    } else {
        interpolated(replace_all(s, wrapped(pairs[0].0), pairs[0].1), pairs.skip(1))
    }
}

/// Whether `c` may appear in a placeholder name.
fn is_word(c: char) -> (r: bool)
    ensures
        r == is_word_char(c),
{
    ('a' <= c && c <= 'z') || ('A' <= c && c <= 'Z') || ('0' <= c && c <= '9') || c == '_'
}

/// The characters of `s`, as a vector.
pub(crate) fn chars_of(s: &str) -> (v: Vec<char>)
    ensures
        v@ == s@,
{
    let n = s.unicode_len();
    let mut v: Vec<char> = Vec::new();
    let mut i: usize = 0;
    while i < n
        invariant
            i <= n == s@.len(),
            v@ == s@.take(i as int),
        decreases n - i,
    {
        let c = s.get_char(i);
        v.push(c);
        proof {
            assert(v@ =~= s@.take(i + 1));
        }
        i += 1;
    }
    proof {
        assert(s@.take(n as int) =~= s@);
    }
    v
}

/// The string made of `chars[a..b]`.
fn string_range(chars: &Vec<char>, a: usize, b: usize) -> (w: String)
    requires
        a <= b <= chars@.len(),
    ensures
        w@ == chars@.subrange(a as int, b as int),
{
    let mut w = String::new();
    let mut i: usize = a;
    while i < b
        invariant
            a <= i <= b <= chars@.len(),
            w@ == chars@.subrange(a as int, i as int),
        decreases b - i,
    {
        w.push(chars[i]);
        proof {
            assert(w@ =~= chars@.subrange(a as int, i + 1));
        }
        i += 1;
    }
    w
}

/// Whether some element of `v` has the same characters as `w`.
fn contains_string(v: &Vec<String>, w: &String) -> (r: bool)
    ensures
        r == exists|t: int| 0 <= t < v@.len() && (#[trigger] v@[t])@ == w@,
{
    let mut i: usize = 0;
    while i < v.len()
        invariant
            i <= v@.len(),
            forall|t: int| 0 <= t < i ==> (#[trigger] v@[t])@ != w@,
        decreases v@.len() - i,
    {
        if v[i] == *w {
            return true;
        }
        i += 1;
    }
    false
}

/// Where the run of word characters starting at `from` ends.
fn word_run_end(chars: &Vec<char>, from: usize) -> (j: usize)
    requires
        from <= chars@.len(),
    ensures
        from <= j <= chars@.len(),
        forall|t: int| from <= t < j ==> is_word_char(#[trigger] chars@[t]),
        j < chars@.len() ==> !is_word_char(chars@[j as int]),
{
    let n = chars.len();
    let mut j = from;
    loop
        invariant
            from <= j <= n == chars@.len(),
            forall|t: int| from <= t < j ==> is_word_char(#[trigger] chars@[t]),
        decreases n - j,
    {
        if j == n {
            return j;
        }
        if !is_word(chars[j]) {
            return j;
        }
        j += 1;
    }
}

/// Collects the names of the unescaped `{{name}}` placeholders in a
/// command: every collected name occurs, every placeholder's name is
/// collected, no name twice, in order of first occurrence.
#[verifier::rlimit(100)]
pub fn extract_parameters(command: &str) -> (params: Vec<String>)
    ensures
        forall|t: int| 0 <= t < params@.len() ==> is_param_of(command@, (#[trigger] params@[t])@),
        forall|p: int, k: int|
            unescaped_template_at(command@, p, k) ==> exists|t: int|
                0 <= t < params@.len() && (#[trigger] params@[t])@ == param_at(command@, p, k),
        forall|a: int, b: int|
            0 <= a < b < params@.len() ==> (#[trigger] params@[a])@ != (#[trigger] params@[b])@,
        forall|a: int, b: int, p: int, k: int|
            #![trigger params@[a], params@[b], unescaped_template_at(command@, p, k)]
            0 <= a < b < params@.len() && unescaped_template_at(command@, p, k) && params@[b]@
                == param_at(command@, p, k) ==> exists|p2: int, k2: int|
                unescaped_template_at(command@, p2, k2) && p2 < p && params@[a]@ == param_at(
                    command@,
                    p2,
                    k2,
                ),
        params@.len() > 0 <==> has_template(command@),
{
    let chars = chars_of(command);
    let ghost s = command@;
    let n = chars.len();
    let mut params: Vec<String> = Vec::new();
    let ghost mut occ: Seq<(int, int)> = Seq::empty();
    let mut i: usize = 0;
    while i < n
        invariant
            chars@ == s,
            i <= n == s.len(),
            params@.len() == occ.len(),
            forall|t: int|
                0 <= t < occ.len() ==> unescaped_template_at(s, (#[trigger] occ[t]).0, occ[t].1)
                    && params@[t]@ == param_at(s, occ[t].0, occ[t].1),
            forall|a: int, b: int|
                0 <= a < b < occ.len() ==> (#[trigger] occ[a]).0 < (#[trigger] occ[b]).0,
            forall|t: int| 0 <= t < occ.len() ==> (#[trigger] occ[t]).0 < i,
            forall|p: int, k: int|
                p < i && unescaped_template_at(s, p, k) ==> exists|t: int|
                    0 <= t < params@.len() && (#[trigger] params@[t])@ == param_at(s, p, k)
                        && occ[t].0 <= p,
            forall|a: int, b: int|
                0 <= a < b < params@.len() ==> (#[trigger] params@[a])@ != (#[trigger] params@[b])@,
        decreases n - i,
    {
        if chars[i] == '{' && i + 1 < n && chars[i + 1] == '{' {
            let j = word_run_end(&chars, i + 2);
            if j > i + 2 && j < n && j + 1 < n && chars[j] == '}' && chars[j + 1] == '}' {
                let ghost k = j - (i + 2);
                proof {
                    assert(template_at(s, i as int, k));
                }
                let ghost params0 = params@;
                let ghost occ0 = occ;
                let escaped = i > 0 && chars[i - 1] == '\\';
                if !escaped {
                    let w = string_range(&chars, i + 2, j);
                    proof {
                        assert(w@ == param_at(s, i as int, k));
                    }
                    if !contains_string(&params, &w) {
                        params.push(w);
                        proof {
                            occ = occ.push((i as int, k));
                        }
                    }
                }
                proof {
                    // the prefix of params kept its elements
                    assert(forall|t: int|
                        0 <= t < params0.len() ==> (#[trigger] params@[t])@ == params0[t]@ && occ[t]
                            == occ0[t]);
                    assert forall|p: int, k2: int|
                        p < j + 2 && unescaped_template_at(s, p, k2) implies exists|t: int|
                        0 <= t < params@.len() && (#[trigger] params@[t])@ == param_at(s, p, k2)
                            && occ[t].0 <= p by {
                        if p < i {
                            let t = choose|t: int|
                                0 <= t < params0.len() && (#[trigger] params0[t])@ == param_at(
                                    s,
                                    p,
                                    k2,
                                ) && occ0[t].0 <= p;
                            assert(params@[t]@ == param_at(s, p, k2) && occ[t].0 <= p);
                        } else if p == i {
                            // this round's placeholder: its name length is
                            // forced, because a name stops at the first `}`
                            if k2 < k {
                                assert(is_word_char(s[i + 2 + k2]));
                                assert(false);
                            } else if k2 > k {
                                assert(is_word_char(s[i + 2 + k]));
                                assert(false);
                            }
                            assert(!escaped);
                            if params@.len() == params0.len() {
                                // already collected earlier
                                let t = choose|t: int|
                                    0 <= t < params0.len() && (#[trigger] params0[t])@ == param_at(
                                        s,
                                        i as int,
                                        k,
                                    );
                                assert(params@[t]@ == param_at(s, p, k2) && occ[t].0 <= p);
                            } else {
                                assert(params@[params@.len() - 1]@ == param_at(s, p, k2));
                            }
                        } else {
                            // no placeholder can start inside this one
                            if p == i + 1 {
                                assert(is_word_char(s[i + 2]));
                                assert(false);
                            } else if p < j {
                                assert(is_word_char(s[p]));
                                assert(false);
                            } else {
                                assert(s[p] == '}');
                                assert(false);
                            }
                        }
                    }
                }
                i = j + 2;
            } else {
                proof {
                    assert forall|k2: int| !template_at(s, i as int, k2) by {
                        if template_at(s, i as int, k2) {
                            if i + 2 + k2 < j {
                                assert(is_word_char(s[i + 2 + k2]));
                                assert(s[i + 2 + k2] == '}');
                                assert(false);
                            } else if i + 2 + k2 > j {
                                assert(j < i + 2 + k2 <= s.len());
                                assert(is_word_char(s[j as int]));
                                assert(!is_word_char(s[j as int]));
                                assert(false);
                            } else {
                                // the name would end exactly at j, but the
                                // guard found no `}}` there
                                assert(j > i + 2 && j + 2 <= s.len() && s[j as int] == '}' && s[j
                                    + 1] == '}');
                                assert(false);
                            }
                        }
                    }
                }
                i += 1;
            }
        } else {
            proof {
                assert forall|k2: int| !template_at(s, i as int, k2) by {
                    if template_at(s, i as int, k2) {
                        assert(s[i as int] == '{' && s[i + 1] == '{');
                        assert(i + 1 < n);
                        assert(false);
                    }
                }
            }
            i += 1;
        }
    }
    proof {
        assert forall|t: int| 0 <= t < params@.len() implies is_param_of(
            s,
            (#[trigger] params@[t])@,
        ) by {
            assert(unescaped_template_at(s, occ[t].0, occ[t].1) && params@[t]@ == param_at(
                s,
                occ[t].0,
                occ[t].1,
            ));
        }
        assert forall|p: int, k: int| unescaped_template_at(s, p, k) implies exists|t: int|
            0 <= t < params@.len() && (#[trigger] params@[t])@ == param_at(s, p, k) by {
            assert(p < n);
        }
        assert forall|a: int, b: int, p: int, k: int|
            #![trigger params@[a], params@[b], unescaped_template_at(s, p, k)]
            0 <= a < b < params@.len() && unescaped_template_at(s, p, k) && params@[b]@ == param_at(
                s,
                p,
                k,
            ) implies exists|p2: int, k2: int|
            unescaped_template_at(s, p2, k2) && p2 < p && params@[a]@ == param_at(s, p2, k2) by {
            assert(p < n);
            let t = choose|t: int|
                0 <= t < params@.len() && (#[trigger] params@[t])@ == param_at(s, p, k) && occ[t].0
                    <= p;
            if t < b {
                assert(params@[t]@ != params@[b]@);
            } else if b < t {
                assert(params@[b]@ != params@[t]@);
            }
            assert(t == b);
            assert(occ[a].0 < occ[b].0);
            assert(unescaped_template_at(s, occ[a].0, occ[a].1) && params@[a]@ == param_at(
                s,
                occ[a].0,
                occ[a].1,
            ));
        }
        if params@.len() > 0 {
            assert(unescaped_template_at(s, occ[0].0, occ[0].1));
        }
        if has_template(s) {
            let (p, k) = choose|p: int, k: int| unescaped_template_at(s, p, k);
            assert(p < n);
            assert(exists|t: int|
                0 <= t < params@.len() && (#[trigger] params@[t])@ == param_at(s, p, k) && occ[t].0
                    <= p);
        }
    }
    params
}

/// Whether `pat` occurs in `chars` starting at `at`.
fn match_at(chars: &Vec<char>, at: usize, pat: &Vec<char>) -> (r: bool)
    requires
        at <= chars@.len(),
    ensures
        r == (at + pat@.len() <= chars@.len() && chars@.subrange(
            at as int,
            at + pat@.len(),
        ) == pat@),
{
    let m = pat.len();
    let n = chars.len();
    if m > n || at > n - m {
        return false;
    }
    let mut t: usize = 0;
    while t < m
        invariant
            t <= m == pat@.len(),
            n == chars@.len(),
            at + m <= n,
            forall|u: int| 0 <= u < t ==> chars@[at + u] == pat@[u],
        decreases m - t,
    {
        if chars[at + t] != pat[t] {
            proof {
                assert(chars@.subrange(at as int, at + pat@.len())[t as int] != pat@[t as int]);
            }
            return false;
        }
        t += 1;
    }
    proof {
        assert(chars@.subrange(at as int, at + pat@.len()) =~= pat@);
    }
    true
}

/// `chars` with every occurrence of `pat` replaced by `rep`.
fn replace_chars(chars: &Vec<char>, pat: &Vec<char>, rep: &Vec<char>) -> (out: Vec<char>)
    requires
        pat@.len() > 0,
    ensures
        out@ == replace_all(chars@, pat@, rep@),
{
    let n = chars.len();
    let m = pat.len();
    let mut out: Vec<char> = Vec::new();
    let mut i: usize = 0;
    proof {
        assert(chars@.skip(0) =~= chars@);
        assert(Seq::<char>::empty() + replace_all(chars@, pat@, rep@) =~= replace_all(
            chars@,
            pat@,
            rep@,
        ));
    }
    while i < n
        invariant
            i <= n == chars@.len(),
            m == pat@.len() > 0,
            replace_all(chars@, pat@, rep@) == out@ + replace_all(chars@.skip(i as int), pat@, rep@),
        decreases n - i,
    {
        let ghost pre = out@;
        let ghost tail = chars@.skip(i as int);
        if match_at(chars, i, pat) {
            let mut t: usize = 0;
            while t < rep.len()
                invariant
                    t <= rep@.len(),
                    out@ == pre + rep@.take(t as int),
                decreases rep@.len() - t,
            {
                out.push(rep[t]);
                proof {
                    assert(out@ =~= pre + rep@.take(t + 1));
                }
                t += 1;
            }
            proof {
                assert(tail.take(m as int) =~= chars@.subrange(i as int, i + m));
                assert(tail.skip(m as int) =~= chars@.skip(i + m));
                assert(rep@.take(rep@.len() as int) =~= rep@);
                assert(out@ + replace_all(chars@.skip(i + m), pat@, rep@) =~= pre + (rep@
                    + replace_all(tail.skip(m as int), pat@, rep@)));
            }
            i = i + m;
        } else {
            out.push(chars[i]);
            proof {
                assert(tail.skip(1) =~= chars@.skip(i + 1));
                if tail.len() >= m {
                    assert(tail.take(m as int) =~= chars@.subrange(i as int, i + m));
                    assert(tail.take(m as int) != pat@);
                    assert(replace_all(tail, pat@, rep@) == seq![tail[0]] + replace_all(
                        tail.skip(1),
                        pat@,
                        rep@,
                    ));
                } else {
                    assert(replace_all(tail, pat@, rep@) == tail);
                    assert(replace_all(tail.skip(1), pat@, rep@) == tail.skip(1));
                    assert(tail =~= seq![tail[0]] + tail.skip(1));
                }
                assert(out@ =~= pre + seq![tail[0]]);
                assert(out@ + replace_all(chars@.skip(i + 1), pat@, rep@) =~= pre + (seq![tail[0]]
                    + replace_all(tail.skip(1), pat@, rep@)));
            }
            i += 1;
        }
    }
    proof {
        assert(chars@.skip(n as int) =~= Seq::<char>::empty());
    }
    out
}

/// Fills a template in: each name/value pair replaces every `{{name}}`
/// occurrence with the value, in the order the pairs are given, and the
/// backslashes that escaped placeholders are removed at the end.
pub fn interpolate_command(command: &str, values: &Vec<(String, String)>) -> (r: String)
    ensures
        r@ == interpolated(command@, pairs_view(values@)),
{
    let ghost pv = pairs_view(values@);
    let mut cur: Vec<char> = chars_of(command);
    let mut t: usize = 0;
    proof {
        assert(pv.skip(0) =~= pv);
    }
    while t < values.len()
        invariant
            t <= values@.len(),
            pv == pairs_view(values@),
            interpolated(command@, pv) == interpolated(cur@, pv.skip(t as int)),
        decreases values@.len() - t,
    {
        let ghost before = cur@;
        let mut pat: Vec<char> = Vec::new();
        pat.push('{');
        pat.push('{');
        let name_chars = chars_of(values[t].0.as_str());
        let mut u: usize = 0;
        while u < name_chars.len()
            invariant
                t < values@.len(),
                u <= name_chars@.len(),
                name_chars@ == values@[t as int].0@,
                pat@ == seq!['{', '{'] + name_chars@.take(u as int),
            decreases name_chars@.len() - u,
        {
            pat.push(name_chars[u]);
            proof {
                assert(pat@ =~= seq!['{', '{'] + name_chars@.take(u + 1));
            }
            u += 1;
        }
        pat.push('}');
        pat.push('}');
        proof {
            assert(name_chars@.take(name_chars@.len() as int) =~= name_chars@);
            assert(pat@ =~= wrapped(values@[t as int].0@));
        }
        let rep = chars_of(values[t].1.as_str());
        cur = replace_chars(&cur, &pat, &rep);
        proof {
            assert(pv.skip(t as int)[0] == pv[t as int]);
            assert(pv.skip(t as int).skip(1) =~= pv.skip(t + 1));
            assert(interpolated(before, pv.skip(t as int)) == interpolated(
                replace_all(before, wrapped(pv[t as int].0), pv[t as int].1),
                pv.skip(t + 1),
            ));
        }
        t += 1;
    }
    let mut esc: Vec<char> = Vec::new();
    esc.push('\\');
    esc.push('{');
    esc.push('{');
    let mut brace: Vec<char> = Vec::new();
    brace.push('{');
    brace.push('{');
    proof {
        assert(esc@ =~= seq!['\\', '{', '{']);
        assert(brace@ =~= seq!['{', '{']);
        assert(pv.skip(values@.len() as int) =~= Seq::<(Seq<char>, Seq<char>)>::empty());
    }
    let out = replace_chars(&cur, &esc, &brace);
    let r = string_range(&out, 0, out.len());
    proof {
        assert(out@.subrange(0, out@.len() as int) =~= out@);
    }
    r
}

} // verus!
