//! Attribute lists: `key=value`, `key="quoted value"` and bare flags.
use vstd::prelude::*;
use crate::json_value::{Json, JsonV, members_insert, obj_insert, view_members};
use crate::text::{find_char, find_char_from, str_chars, string_from_chars, string_of_range};

verus! {

/// Whether `c` separates attribute tokens (outside quotes).
pub open spec fn is_attr_sep(c: char) -> bool {
    c == ' ' || c == '\t' || c == '\n' || c == '\r' || c == ','
}

/// The tokens of `s[i..]`, given the tokens found so far, the token being
/// read and whether a double quote is open. A `"` toggles quoting and is
/// dropped; separators outside quotes end the current token; empty tokens
/// are never emitted.
pub open spec fn tokenize_from(
    s: Seq<char>,
    i: int,
    tokens: Seq<Seq<char>>,
    cur: Seq<char>,
    quoted: bool,
) -> Seq<Seq<char>>
    decreases s.len() - i,
{
    if i < 0 || i >= s.len() {
        if cur.len() > 0 {
            tokens.push(cur)
        } else {
            tokens
        }
    } else if s[i] == '"' {
        tokenize_from(s, i + 1, tokens, cur, !quoted)
    } else if !quoted && is_attr_sep(s[i]) {
        if cur.len() > 0 {
            tokenize_from(s, i + 1, tokens.push(cur), Seq::empty(), quoted)
        } else {
            tokenize_from(s, i + 1, tokens, cur, quoted)
        }
    } else {
        tokenize_from(s, i + 1, tokens, cur.push(s[i]), quoted)
    }
}

/// The attribute tokens of `s`.
pub open spec fn tokens_of(s: Seq<char>) -> Seq<Seq<char>> {
    tokenize_from(s, 0, Seq::empty(), Seq::empty(), false)
}

/// Whether every token is non-empty and holds no double quote.
pub open spec fn clean_tokens(t: Seq<Seq<char>>) -> bool {
    forall|i: int|
        0 <= i < t.len() ==> #[trigger] t[i].len() > 0 && !t[i].contains('"')
}

pub proof fn lemma_tokenize_clean(
    s: Seq<char>,
    i: int,
    tokens: Seq<Seq<char>>,
    cur: Seq<char>,
    quoted: bool,
)
    requires
        0 <= i,
        clean_tokens(tokens),
        !cur.contains('"'),
    ensures
        clean_tokens(tokenize_from(s, i, tokens, cur, quoted)),
    decreases s.len() - i,
{
    if i >= s.len() {
        if cur.len() > 0 {
            assert forall|k: int| 0 <= k < tokens.push(cur).len() implies #[trigger] tokens.push(
                cur,
            )[k].len() > 0 && !tokens.push(cur)[k].contains('"') by {
                if k < tokens.len() {
                    assert(tokens.push(cur)[k] == tokens[k]);
                }
            }
        }
    } else if s[i] == '"' {
        lemma_tokenize_clean(s, i + 1, tokens, cur, !quoted);
    } else if !quoted && is_attr_sep(s[i]) {
        if cur.len() > 0 {
            assert forall|k: int| 0 <= k < tokens.push(cur).len() implies #[trigger] tokens.push(
                cur,
            )[k].len() > 0 && !tokens.push(cur)[k].contains('"') by {
                if k < tokens.len() {
                    assert(tokens.push(cur)[k] == tokens[k]);
                }
            }
            assert(!Seq::<char>::empty().contains('"'));
            lemma_tokenize_clean(s, i + 1, tokens.push(cur), Seq::empty(), quoted);
        } else {
            lemma_tokenize_clean(s, i + 1, tokens, cur, quoted);
        }
    } else {
        assert(!cur.push(s[i]).contains('"')) by {
            if cur.push(s[i]).contains('"') {
                let k = choose|k: int| 0 <= k < cur.push(s[i]).len() && cur.push(s[i])[k] == '"';
                if k < cur.len() {
                    assert(cur[k] == '"');
                }
            }
        }
        lemma_tokenize_clean(s, i + 1, tokens, cur.push(s[i]), quoted);
    }
}

/// The characters of each string in `v`.
pub open spec fn strings_view(v: Seq<String>) -> Seq<Seq<char>> {
    v.map_values(|t: String| t@)
}

/// Splits an attribute list into tokens: whitespace and commas separate
/// tokens outside double quotes; the quotes themselves are dropped.
/// Every token is non-empty and holds no `"`.
pub fn tokenize_attrs(s: &str) -> (r: Vec<String>)
    ensures
        strings_view(r@) == tokens_of(s@),
        clean_tokens(tokens_of(s@)),
{
    let chars = str_chars(s);
    let mut tokens: Vec<String> = Vec::new();
    let mut current: Vec<char> = Vec::new();
    let mut in_quote = false;
    let mut i: usize = 0;
    assert(strings_view(tokens@) =~= Seq::empty());
    while i < chars.len()
        invariant
            i <= chars.len(),
            chars@ == s@,
            tokenize_from(chars@, i as int, strings_view(tokens@), current@, in_quote)
                == tokens_of(s@),
        decreases chars.len() - i,
    {
        let ch = chars[i];
        if ch == '"' {
            in_quote = !in_quote;
        } else if !in_quote && (ch == ' ' || ch == '\t' || ch == '\n' || ch == '\r' || ch == ',') {
            if current.len() > 0 {
                let t = string_from_chars(&current);
                proof {
                    assert(strings_view(tokens@.push(t)) =~= strings_view(tokens@).push(current@));
                }
                tokens.push(t);
                current = Vec::new();
                assert(current@ =~= Seq::<char>::empty());
            }
        } else {
            current.push(ch);
        }
        i = i + 1;
    }
    if current.len() > 0 {
        let t = string_from_chars(&current);
        proof {
            assert(strings_view(tokens@.push(t)) =~= strings_view(tokens@).push(current@));
        }
        tokens.push(t);
    }
    proof {
        assert(!Seq::<char>::empty().contains('"'));
        lemma_tokenize_clean(s@, 0, Seq::empty(), Seq::empty(), false);
    }
    tokens
}

/// The attribute that the token `t` stands for: `key=value` binds `key` to
/// the string `value` (split at the first `=`); a bare token is a `true` flag.
pub open spec fn attr_entry(t: Seq<char>) -> (Seq<char>, JsonV) {
    match find_char_from(t, 0, '=') {
        Some(k) => (t.subrange(0, k), JsonV::Str(t.subrange(k + 1, t.len() as int))),
        None => (t, JsonV::Bool(true)),
    }
}

/// The attributes that the tokens `t` bind, later tokens overriding earlier
/// ones with the same key.
pub open spec fn attrs_of(t: Seq<Seq<char>>) -> Seq<(Seq<char>, JsonV)>
    decreases t.len(),
{
    if t.len() == 0 {
        Seq::empty()
    } else {
        let e = attr_entry(t.last());
        members_insert(attrs_of(t.drop_last()), e.0, e.1)
    }
}

/// Binds the attribute of the token `t` in `attrs`.
fn insert_attr_token(attrs: &mut Vec<(String, Json)>, t: &String)
    ensures
        view_members(final(attrs)@) == members_insert(
            view_members(old(attrs)@),
            attr_entry(t@).0,
            attr_entry(t@).1,
        ),
{
    let chars = str_chars(t.as_str());
    match find_char(&chars, 0, '=') {
        Some(k) => {
            let key = string_of_range(&chars, 0, k);
            let val = string_of_range(&chars, k + 1, chars.len());
            obj_insert(attrs, key, Json::Str(val));
        },
        None => {
            obj_insert(attrs, t.clone(), Json::Bool(true));
        },
    }
}

/// The attributes bound by `tokens[from..]`, in order.
pub fn attrs_from_tokens(tokens: &Vec<String>, from: usize) -> (r: Vec<(String, Json)>)
    requires
        from <= tokens.len(),
    ensures
        view_members(r@) == attrs_of(strings_view(tokens@).subrange(from as int, tokens@.len() as int)),
{
    let mut attrs: Vec<(String, Json)> = Vec::new();
    let mut i = from;
    while i < tokens.len()
        invariant
            from <= i <= tokens.len(),
            view_members(attrs@) == attrs_of(strings_view(tokens@).subrange(from as int, i as int)),
        decreases tokens.len() - i,
    {
        insert_attr_token(&mut attrs, &tokens[i]);
        proof {
            let tv = strings_view(tokens@);
            assert(tv.subrange(from as int, i + 1).drop_last() =~= tv.subrange(from as int, i as int));
            assert(tv.subrange(from as int, i + 1).last() == tokens@[i as int]@);
        }
        i = i + 1;
    }
    proof {
        assert(view_members(Seq::<(String, Json)>::empty()) =~= Seq::empty());
    }
    attrs
}

/// Parses an attribute block: each `key=value` token binds `key` to the
/// string `value`, each bare token is a `true` flag.
pub fn parse_attr_block(s: &str) -> (r: Vec<(String, Json)>)
    ensures
        view_members(r@) == attrs_of(tokens_of(s@)),
{
    let tokens = tokenize_attrs(s);
    let r = attrs_from_tokens(&tokens, 0);
    proof {
        assert(strings_view(tokens@).subrange(0, tokens@.len() as int) =~= strings_view(tokens@));
    }
    r
}

/// The name of an info string: its first token, or empty.
pub open spec fn info_name(s: Seq<char>) -> Seq<char> {
    if tokens_of(s).len() > 0 {
        tokens_of(s)[0]
    } else {
        Seq::empty()
    }
}

/// The attributes of an info string: those of all tokens but the first.
pub open spec fn info_attrs(s: Seq<char>) -> Seq<(Seq<char>, JsonV)> {
    if tokens_of(s).len() > 0 {
        attrs_of(tokens_of(s).drop_first())
    } else {
        Seq::empty()
    }
}

/// Parses a fenced info string `<name> [key=value|key="quoted value"|flag]*`
/// into its name (the first token) and its attributes.
pub fn parse_fence_info(info: &str) -> (r: (String, Vec<(String, Json)>))
    ensures
        r.0@ == info_name(info@),
        view_members(r.1@) == info_attrs(info@),
{
    let tokens = tokenize_attrs(info);
    if tokens.len() == 0 {
        proof {
            assert(view_members(Seq::<(String, Json)>::empty()) =~= Seq::empty());
        }
        return (String::new(), Vec::new());
    }
    let name = tokens[0].clone();
    let attrs = attrs_from_tokens(&tokens, 1);
    proof {
        assert(strings_view(tokens@).subrange(1, tokens@.len() as int) =~= strings_view(tokens@).drop_first());
    }
    (name, attrs)
}

/// One character of the tokenizer: the tokens so far, the token being read
/// and whether a double quote is open, after the character `c`.
pub open spec fn tok_step(st: (Seq<Seq<char>>, Seq<char>, bool), c: char) -> (Seq<Seq<char>>, Seq<char>, bool) {
    if c == '"' {
        (st.0, st.1, !st.2)
    } else if !st.2 && is_attr_sep(c) {
        if st.1.len() > 0 {
            (st.0.push(st.1), Seq::empty(), st.2)
        } else {
            st
        }
    } else {
        (st.0, st.1.push(c), st.2)
    }
}

/// The tokenizer's state after the characters of `s`, from `st`.
pub open spec fn tok_run(s: Seq<char>, st: (Seq<Seq<char>>, Seq<char>, bool)) -> (Seq<Seq<char>>, Seq<char>, bool)
    decreases s.len(),
{
    if s.len() == 0 {
        st
    } else {
        tok_step(tok_run(s.drop_last(), st), s.last())
    }
}

/// The tokens once the text ends: the token being read, if any, is added.
pub open spec fn tok_finish(st: (Seq<Seq<char>>, Seq<char>, bool)) -> Seq<Seq<char>> {
    if st.1.len() > 0 {
        st.0.push(st.1)
    } else {
        st.0
    }
}

/// The number of double quotes in `s`.
pub open spec fn quote_count(s: Seq<char>) -> nat
    decreases s.len(),
{
    if s.len() == 0 {
        0
    } else {
        quote_count(s.drop_last()) + if s.last() == '"' {
            1nat
        } else {
            0nat
        }
    }
}

proof fn lemma_tok_run_concat(x: Seq<char>, y: Seq<char>, st: (Seq<Seq<char>>, Seq<char>, bool))
    ensures
        tok_run(x + y, st) == tok_run(y, tok_run(x, st)),
    decreases y.len(),
{
    if y.len() == 0 {
        assert(x + y =~= x);
    } else {
        lemma_tok_run_concat(x, y.drop_last(), st);
        assert((x + y).drop_last() =~= x + y.drop_last());
    }
}

proof fn lemma_tok_run_front(c: char, y: Seq<char>, st: (Seq<Seq<char>>, Seq<char>, bool))
    ensures
        tok_run(seq![c] + y, st) == tok_run(y, tok_step(st, c)),
{
    lemma_tok_run_concat(seq![c], y, st);
    assert(seq![c].drop_last() =~= Seq::<char>::empty());
    assert(tok_run(Seq::<char>::empty(), st) == st);
    assert(seq![c].last() == c);
}

/// The recursive tokenizer is the fold of its step.
proof fn lemma_tokenize_is_run(s: Seq<char>, i: int, t: Seq<Seq<char>>, c: Seq<char>, q: bool)
    requires
        0 <= i <= s.len(),
    ensures
        tokenize_from(s, i, t, c, q) == tok_finish(tok_run(s.subrange(i, s.len() as int), (t, c, q))),
    decreases s.len() - i,
{
    if i == s.len() {
        assert(s.subrange(i, s.len() as int) =~= Seq::<char>::empty());
    } else {
        let st1 = tok_step((t, c, q), s[i]);
        lemma_tokenize_is_run(s, i + 1, st1.0, st1.1, st1.2);
        assert(s.subrange(i, s.len() as int) =~= seq![s[i]] + s.subrange(i + 1, s.len() as int));
        lemma_tok_run_front(s[i], s.subrange(i + 1, s.len() as int), (t, c, q));
    }
}

/// Tokens found before do not change what the rest of a text gives.
proof fn lemma_tok_run_shift(s: Seq<char>, t0: Seq<Seq<char>>, c: Seq<char>, q: bool)
    ensures
        tok_run(s, (t0, c, q)).0 == t0 + tok_run(s, (Seq::empty(), c, q)).0,
        tok_run(s, (t0, c, q)).1 == tok_run(s, (Seq::empty(), c, q)).1,
        tok_run(s, (t0, c, q)).2 == tok_run(s, (Seq::empty(), c, q)).2,
    decreases s.len(),
{
    if s.len() == 0 {
        assert(t0 + Seq::<Seq<char>>::empty() =~= t0);
    } else {
        lemma_tok_run_shift(s.drop_last(), t0, c, q);
        let a = tok_run(s.drop_last(), (Seq::empty(), c, q));
        assert((t0 + a.0).push(a.1) =~= t0 + a.0.push(a.1));
    }
}

/// After the characters of `s` from the start state, a double quote is open
/// exactly when `s` holds an odd number of them.
proof fn lemma_tok_run_quoted(s: Seq<char>)
    ensures
        tok_run(s, (Seq::empty(), Seq::empty(), false)).2 == (quote_count(s) % 2 == 1),
    decreases s.len(),
{
    if s.len() > 0 {
        lemma_tok_run_quoted(s.drop_last());
    }
}

/// Tokenizing two texts joined by a space gives the tokens of the first and
/// then those of the second, when the first closes every double quote it
/// opens (an even number of them).
pub proof fn lemma_tokens_of_joined(a: Seq<char>, b: Seq<char>)
    requires
        quote_count(a) % 2 == 0,
    ensures
        tokens_of(a + seq![' '] + b) == tokens_of(a) + tokens_of(b),
{
    let init: (Seq<Seq<char>>, Seq<char>, bool) = (Seq::empty(), Seq::empty(), false);
    let s = a + seq![' '] + b;
    lemma_tokenize_is_run(s, 0, Seq::empty(), Seq::empty(), false);
    lemma_tokenize_is_run(a, 0, Seq::empty(), Seq::empty(), false);
    lemma_tokenize_is_run(b, 0, Seq::empty(), Seq::empty(), false);
    assert(s.subrange(0, s.len() as int) =~= s);
    assert(a.subrange(0, a.len() as int) =~= a);
    assert(b.subrange(0, b.len() as int) =~= b);
    lemma_tok_run_concat(a + seq![' '], b, init);
    lemma_tok_run_concat(a, seq![' '], init);
    let ra = tok_run(a, init);
    lemma_tok_run_quoted(a);
    assert(seq![' '].drop_last() =~= Seq::<char>::empty());
    assert(tok_run(Seq::<char>::empty(), ra) == ra);
    assert(seq![' '].last() == ' ');
    assert(tok_run(seq![' '], ra) == tok_step(ra, ' '));
    assert(tok_step(ra, ' ') == (tok_finish(ra), Seq::<char>::empty(), false));
    lemma_tok_run_shift(b, tok_finish(ra), Seq::empty(), false);
    let rb = tok_run(b, init);
    if rb.1.len() > 0 {
        assert((tok_finish(ra) + rb.0).push(rb.1) =~= tok_finish(ra) + rb.0.push(rb.1));
    }
}

} // verus!
