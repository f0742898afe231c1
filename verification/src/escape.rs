//! The escaping policy: exactly five characters are special and each is
//! replaced by its HTML entity; every other character passes through
//! unchanged.  `escape_seq` is the mathematical statement of the policy and
//! `escape` is the executable routine proved against it.

use vstd::prelude::*;

verus! {

/// A character that must not reach HTML output bare.
pub open spec fn is_special(c: char) -> bool {
    c == '<' || c == '>' || c == '&' || c == '"' || c == '\''
}

/// What one character contributes to escaped output.
pub open spec fn esc_char(c: char) -> Seq<char> {
    if c == '<' {
        "&lt;"@
    } else if c == '>' {
        "&gt;"@
    } else if c == '&' {
        "&amp;"@
    } else if c == '"' {
        "&quot;"@
    } else if c == '\'' {
        "&#39;"@
    } else {
        seq![c]
    }
}

/// The escaping policy over whole character sequences.
pub open spec fn escape_seq(s: Seq<char>) -> Seq<char>
    decreases s.len(),
{
    if s.len() == 0 {
        Seq::empty()
    } else {
        esc_char(s[0]) + escape_seq(s.drop_first())
    }
}

/// Escaping distributes over appending one character at the end.
pub proof fn lemma_escape_seq_push(s: Seq<char>, c: char)
    ensures
        escape_seq(s.push(c)) == escape_seq(s) + esc_char(c),
    decreases s.len(),
{
    if s.len() == 0 {
        assert(s.push(c)[0] == c);
        assert(s.push(c).drop_first() =~= Seq::<char>::empty());
        assert(escape_seq(s.push(c)) == esc_char(c) + escape_seq(Seq::<char>::empty()));
        assert(esc_char(c) + Seq::<char>::empty() =~= esc_char(c));
        assert(escape_seq(s) + esc_char(c) =~= esc_char(c));
    } else {
        lemma_escape_seq_push(s.drop_first(), c);
        assert(s.push(c)[0] == s[0]);
        assert(s.push(c).drop_first() =~= s.drop_first().push(c));
        assert(escape_seq(s.push(c)) =~= escape_seq(s) + esc_char(c));
    }
}

/// A sequence without special characters escapes to itself.
pub proof fn lemma_escape_of_safe(s: Seq<char>)
    requires
        forall|i: int| 0 <= i < s.len() ==> !is_special(#[trigger] s[i]),
    ensures
        escape_seq(s) == s,
    decreases s.len(),
{
    if s.len() == 0 {
        assert(escape_seq(s) =~= s);
    } else {
        assert(!is_special(s[0]));
        assert(forall|i: int|
            0 <= i < s.drop_first().len() ==> !is_special(#[trigger] s.drop_first()[i]));
        lemma_escape_of_safe(s.drop_first());
        assert(esc_char(s[0]) =~= seq![s[0]]);
        assert(escape_seq(s) =~= s);
    }
}

/// One of the five entities starts at position `i` of `t`.
pub open spec fn entity_at(t: Seq<char>, i: int) -> bool {
    ||| (i + 4 <= t.len() && t.subrange(i, i + 4) == "&lt;"@)
    ||| (i + 4 <= t.len() && t.subrange(i, i + 4) == "&gt;"@)
    ||| (i + 5 <= t.len() && t.subrange(i, i + 5) == "&amp;"@)
    ||| (i + 6 <= t.len() && t.subrange(i, i + 6) == "&quot;"@)
    ||| (i + 5 <= t.len() && t.subrange(i, i + 5) == "&#39;"@)
}

/// No special character occurs bare: the four bracket and quote characters
/// do not occur at all, and every ampersand starts an entity.
pub open spec fn no_bare_special(t: Seq<char>) -> bool {
    forall|i: int| 0 <= i < t.len() ==> {
        &&& #[trigger] t[i] != '<'
        &&& t[i] != '>'
        &&& t[i] != '"'
        &&& t[i] != '\''
        &&& (t[i] == '&' ==> entity_at(t, i))
    }
}

proof fn lemma_entity_at_shift(pre: Seq<char>, rest: Seq<char>, j: int)
    requires
        0 <= j < rest.len(),
        entity_at(rest, j),
    ensures
        entity_at(pre + rest, pre.len() + j),
{
    let t = pre + rest;
    let i = pre.len() + j;
    if j + 4 <= rest.len() && rest.subrange(j, j + 4) == "&lt;"@ {
        assert(t.subrange(i, i + 4) =~= rest.subrange(j, j + 4));
    } else if j + 4 <= rest.len() && rest.subrange(j, j + 4) == "&gt;"@ {
        assert(t.subrange(i, i + 4) =~= rest.subrange(j, j + 4));
    } else if j + 5 <= rest.len() && rest.subrange(j, j + 5) == "&amp;"@ {
        assert(t.subrange(i, i + 5) =~= rest.subrange(j, j + 5));
    } else if j + 6 <= rest.len() && rest.subrange(j, j + 6) == "&quot;"@ {
        assert(t.subrange(i, i + 6) =~= rest.subrange(j, j + 6));
    } else {
        assert(t.subrange(i, i + 5) =~= rest.subrange(j, j + 5));
    }
}

proof fn lemma_no_bare_prefix(e: Seq<char>, rest: Seq<char>)
    requires
        no_bare_special(rest),
        forall|i: int| 0 < i < e.len() ==> #[trigger] e[i] != '<' && e[i] != '>' && e[i] != '"'
            && e[i] != '\'' && e[i] != '&',
        e.len() > 0,
        e[0] != '<' && e[0] != '>' && e[0] != '"' && e[0] != '\'',
        e[0] == '&' ==> entity_at(e + rest, 0),
    ensures
        no_bare_special(e + rest),
{
    let t = e + rest;
    assert forall|i: int| 0 <= i < t.len() implies #[trigger] t[i] != '<' && t[i] != '>'
        && t[i] != '"' && t[i] != '\'' && (t[i] == '&' ==> entity_at(t, i)) by {
        if i < e.len() {
            assert(t[i] == e[i]);
        } else {
            let j = i - e.len();
            assert(t[i] == rest[j]);
            if t[i] == '&' {
                lemma_entity_at_shift(e, rest, j);
            }
        }
    }
}

/// What a single escape run guarantees: its output never contains one of
/// the five special characters bare.  Escaping is not idempotent (an
/// entity's own ampersand would be escaped again); this is the property
/// that holds instead.
pub proof fn lemma_escape_no_bare_special(s: Seq<char>)
    ensures
        no_bare_special(escape_seq(s)),
    decreases s.len(),
{
    reveal_strlit("&lt;");
    reveal_strlit("&gt;");
    reveal_strlit("&amp;");
    reveal_strlit("&quot;");
    reveal_strlit("&#39;");
    if s.len() == 0 {
    } else {
        lemma_escape_no_bare_special(s.drop_first());
        let e = esc_char(s[0]);
        let rest = escape_seq(s.drop_first());
        let c = s[0];
        if is_special(c) {
            assert(e[0] == '&');
            assert(e.subrange(0, e.len() as int) =~= e);
            assert((e + rest).subrange(0, e.len() as int) =~= e);
            assert(entity_at(e + rest, 0));
            lemma_no_bare_prefix(e, rest);
        } else {
            assert(e =~= seq![c]);
            lemma_no_bare_prefix(e, rest);
        }
        assert(escape_seq(s) == e + rest);
    }
}

/// Relies on String::push: appends exactly one character at the end.
#[verifier::external_body]
fn push_char(s: &mut String, c: char)
    ensures
        final(s)@ == old(s)@ + seq![c],
{
    s.push(c);
}

/// The index of the first special character, if any; used both as the
/// fast path that leaves safe input untouched and as the start of the
/// rewriting loop.
fn first_special(s: &str) -> (r: Option<usize>)
    ensures
        match r {
            Some(i) => i < s@.len() && is_special(s@[i as int]) && forall|j: int|
                0 <= j < i ==> !is_special(#[trigger] s@[j]),
            None => forall|j: int| 0 <= j < s@.len() ==> !is_special(#[trigger] s@[j]),
        },
{
    let n = s.unicode_len();
    let mut i: usize = 0;
    while i < n
        invariant
            n == s@.len(),
            i <= n,
            forall|j: int| 0 <= j < i ==> !is_special(#[trigger] s@[j]),
        decreases n - i,
    {
        let c = s.get_char(i);
        if c == '<' || c == '>' || c == '&' || c == '"' || c == '\'' {
            return Some(i);
        }
        i = i + 1;
    }
    None
}

/// Replaces each of the five special characters by its entity and leaves
/// every other character unchanged.  Input without special characters is
/// recognised by a single scan and copied back as it is.
pub fn escape(input: &str) -> (out: String)
    ensures
        out@ == escape_seq(input@),
{
    match first_special(input) {
        None => {
            proof {
                lemma_escape_of_safe(input@);
            }
            input.to_owned()
        },
        Some(first) => {
            let n = input.unicode_len();
            let prefix = input.substring_char(0, first);
            let mut out = prefix.to_owned();
            proof {
                lemma_escape_of_safe(input@.subrange(0, first as int));
            }
            let mut i: usize = first;
            while i < n
                invariant
                    n == input@.len(),
                    i <= n,
                    out@ == escape_seq(input@.subrange(0, i as int)),
                decreases n - i,
            {
                let c = input.get_char(i);
                proof {
                    lemma_escape_seq_push(input@.subrange(0, i as int), c);
                    assert(input@.subrange(0, i + 1) =~= input@.subrange(0, i as int).push(c));
                }
                if c == '<' {
                    out.append("&lt;");
                } else if c == '>' {
                    out.append("&gt;");
                } else if c == '&' {
                    out.append("&amp;");
                } else if c == '"' {
                    out.append("&quot;");
                } else if c == '\'' {
                    out.append("&#39;");
                } else {
                    push_char(&mut out, c);
                    proof {
                        assert(esc_char(c) =~= seq![c]);
                    }
                }
                i = i + 1;
            }
            proof {
                assert(input@.subrange(0, n as int) =~= input@);
            }
            out
        },
    }
}

} // verus!
