//! Mermaid diagram sources to `fenced` nodes.
use vstd::prelude::*;
use crate::code::fenced;
use crate::json_value::{
    clone_json, lemma_view_members, members_insert, obj_insert, view_members, Json, JsonV,
};
use crate::text::{own, str_chars, str_eq, string_of_range, trim_end, trim_end_len};

verus! {

/// The attributes `attrs` without the `src` attribute (each bound as by
/// `Map::insert`, in order).
pub open spec fn without_src(attrs: Seq<(Seq<char>, JsonV)>) -> Seq<(Seq<char>, JsonV)>
    decreases attrs.len(),
{
    if attrs.len() == 0 {
        Seq::empty()
    } else {
        let prev = without_src(attrs.drop_last());
        if attrs.last().0 == "src"@ {
            prev
        } else {
            members_insert(prev, attrs.last().0, attrs.last().1)
        }
    }
}

/// A `fenced` node named `mermaid` for the diagram source `content` (its
/// trailing whitespace removed), with the attributes `attrs` but `src`.
pub fn parse_mermaid_to_fenced_ast(content: &str, attrs: &Vec<(String, Json)>) -> (r: Json)
    ensures
        r@ == JsonV::Object(
            seq![
                ("t"@, JsonV::Str("fenced"@)),
                ("name"@, JsonV::Str("mermaid"@)),
                ("attrs"@, JsonV::Object(without_src(view_members(attrs@)))),
                ("raw"@, JsonV::Str(trim_end(content@))),
            ],
        ),
{
    let ghost av = view_members(attrs@);
    proof {
        lemma_view_members(attrs@);
    }
    let mut kept: Vec<(String, Json)> = Vec::new();
    let mut i: usize = 0;
    assert(av.subrange(0, 0) =~= Seq::<(Seq<char>, JsonV)>::empty());
    assert(view_members(kept@) =~= Seq::empty());
    while i < attrs.len()
        invariant
            i <= attrs@.len(),
            av == view_members(attrs@),
            av.len() == attrs@.len(),
            view_members(kept@) == without_src(av.subrange(0, i as int)),
        decreases attrs.len() - i,
    {
        proof {
            lemma_view_members(attrs@);
        }
        assert(av.subrange(0, i + 1).drop_last() =~= av.subrange(0, i as int));
        assert(av[i as int] == (attrs@[i as int].0@, attrs@[i as int].1@));
        if !str_eq(attrs[i].0.as_str(), "src") {
            obj_insert(&mut kept, own(attrs[i].0.as_str()), clone_json(&attrs[i].1));
        }
        i = i + 1;
    }
    assert(av.subrange(0, av.len() as int) =~= av);
    let chars = str_chars(content);
    let n = trim_end_len(&chars, chars.len());
    let raw = string_of_range(&chars, 0, n);
    proof {
        assert(chars@.subrange(0, chars@.len() as int) =~= chars@);
    }
    fenced(own("mermaid"), raw, kept)
}

} // verus!
