//! Renderer plugins for fenced blocks (`mermaid`, `simby`), the registry
//! that finds them by name, and the escaping they use.
use vstd::prelude::*;
use crate::cmark::opt_view;
use crate::json_value::{json_get, members_get, Json, JsonV};
use crate::text::{own, push_char, str_eq};

verus! {

/// The HTML-attribute form of one character.
pub open spec fn attr_escape_char(c: char) -> Seq<char> {
    if c == '&' {
        "&amp;"@
    } else if c == '<' {
        "&lt;"@
    } else if c == '>' {
        "&gt;"@
    } else if c == '"' {
        "&quot;"@
    } else if c == '\'' {
        "&#39;"@
    } else {
        seq![c]
    }
}

/// `s` escaped for an HTML attribute value.
pub open spec fn attr_escape(s: Seq<char>) -> Seq<char>
    decreases s.len(),
{
    if s.len() == 0 {
        Seq::empty()
    } else {
        attr_escape(s.drop_last()) + attr_escape_char(s.last())
    }
}

/// The Typst-string form of one character.
pub open spec fn typst_escape_char(c: char) -> Seq<char> {
    if c == '"' {
        seq!['\\', '"']
    } else {
        seq![c]
    }
}

/// `s` with every double quote preceded by a backslash.
pub open spec fn typst_escape(s: Seq<char>) -> Seq<char>
    decreases s.len(),
{
    if s.len() == 0 {
        Seq::empty()
    } else {
        typst_escape(s.drop_last()) + typst_escape_char(s.last())
    }
}

/// Whether `c` has a meaning of its own inside an HTML attribute value.
pub open spec fn html_special(c: char) -> bool {
    c == '<' || c == '>' || c == '"' || c == '\''
}

/// Escaping for an HTML attribute leaves none of `< > " '` in the text.
pub proof fn lemma_attr_escape_safe(s: Seq<char>)
    ensures
        forall|i: int| 0 <= i < attr_escape(s).len() ==> !html_special(#[trigger] attr_escape(s)[i]),
    decreases s.len(),
{
    reveal_strlit("&amp;");
    reveal_strlit("&lt;");
    reveal_strlit("&gt;");
    reveal_strlit("&quot;");
    reveal_strlit("&#39;");
    if s.len() > 0 {
        lemma_attr_escape_safe(s.drop_last());
        let a = attr_escape(s.drop_last());
        let b = attr_escape_char(s.last());
        assert forall|i: int| 0 <= i < (a + b).len() implies !html_special(#[trigger] (a + b)[i]) by {
            if i >= a.len() {
                assert((a + b)[i] == b[i - a.len()]);
            }
        }
    }
}

/// Escapes `s` for use inside a double-quoted HTML attribute value.
pub fn escape_attr(s: &str) -> (r: String)
    ensures
        r@ == attr_escape(s@),
{
    proof {
        reveal_strlit("&amp;");
        reveal_strlit("&lt;");
        reveal_strlit("&gt;");
        reveal_strlit("&quot;");
        reveal_strlit("&#39;");
    }
    broadcast use vstd::string::axiom_spec_iter;

    let mut out = String::new();
    for ch in iter: s.chars()
        invariant
            iter.seq() == s@,
            out@ == attr_escape(iter.seq().subrange(0, iter.index() as int)),
    {
        let ghost pre = iter.seq().subrange(0, iter.index() as int);
        if ch == '&' {
            out.append("&amp;");
        } else if ch == '<' {
            out.append("&lt;");
        } else if ch == '>' {
            out.append("&gt;");
        } else if ch == '"' {
            out.append("&quot;");
        } else if ch == '\'' {
            out.append("&#39;");
        } else {
            push_char(&mut out, ch);
        }
        assert(pre.push(ch).drop_last() =~= pre);
        assert(iter.seq().subrange(0, iter.index() + 1) =~= pre.push(ch));
    }
    assert(s@.subrange(0, s@.len() as int) =~= s@);
    out
}

/// Escapes `s` for use inside a double-quoted Typst string: every `"`
/// becomes `\"`.
pub fn escape_typst_string(s: &str) -> (r: String)
    ensures
        r@ == typst_escape(s@),
{
    broadcast use vstd::string::axiom_spec_iter;

    let mut out = String::new();
    for ch in iter: s.chars()
        invariant
            iter.seq() == s@,
            out@ == typst_escape(iter.seq().subrange(0, iter.index() as int)),
    {
        let ghost pre = iter.seq().subrange(0, iter.index() as int);
        if ch == '"' {
            push_char(&mut out, '\\');
            push_char(&mut out, '"');
            assert(out@ =~= typst_escape(pre) + typst_escape_char(ch));
        } else {
            push_char(&mut out, ch);
            assert(out@ =~= typst_escape(pre) + typst_escape_char(ch));
        }
        assert(pre.push(ch).drop_last() =~= pre);
        assert(iter.seq().subrange(0, iter.index() + 1) =~= pre.push(ch));
    }
    assert(s@.subrange(0, s@.len() as int) =~= s@);
    out
}

/// Scripts, WebAssembly modules and stylesheets that a plugin's HTML needs.
pub struct HtmlDependencies {
    pub scripts: Vec<String>,
    pub wasm_modules: Vec<String>,
    pub styles: Vec<String>,
}

/// A renderer for the fenced blocks of one name.
pub trait Plugin: Send + Sync {
    /// The fence name that the plugin handles.
    spec fn plugin_name(&self) -> Seq<char>;

    /// The fence name that the plugin handles.
    fn name(&self) -> (r: &'static str)
        ensures
            r@ == self.plugin_name(),
    ;

    /// Parses a block's raw text into a token; by default there is none.
    fn parse(&self, raw: &str) -> (r: Option<Json>)
        default_ensures
            r is None,
    {
        None
    }

    /// The HTML of a token; by default there is none.
    fn render_html(&self, token: &Json) -> (r: Option<String>)
        default_ensures
            r is None,
    {
        None
    }

    /// What the plugin's HTML needs loaded; by default nothing.
    fn html_dependencies(&self) -> (r: Option<HtmlDependencies>)
        default_ensures
            r is None,
    {
        None
    }

    /// The Typst markup that the plugin gives for a token, if any.
    spec fn typst_of(&self, token: JsonV) -> Option<Seq<char>>;

    /// The Typst markup of a token (`None` where the plugin has no Typst
    /// form for it).
    fn render_typst(&self, token: &Json) -> (r: Option<String>)
        ensures
            opt_view(r) == self.typst_of(token@),
    ;
}

/// The `raw` text of a fenced token (`token["raw"]` as a string, else empty).
pub open spec fn token_raw(token: JsonV) -> Seq<char> {
    match token {
        JsonV::Object(m) => match members_get(m, "raw"@) {
            Some(JsonV::Str(s)) => s,
            _ => Seq::empty(),
        },
        _ => Seq::empty(),
    }
}

fn raw_of(token: &Json) -> (r: &str)
    ensures
        r@ == token_raw(token@),
{
    proof {
        reveal_strlit("");
    }
    match json_get(token, "raw") {
        Some(Json::Str(s)) => s.as_str(),
        _ => "",
    }
}

/// The HTML placeholder of a plugin block: a `div` that names the plugin
/// and carries the block's raw text in an attribute.
pub open spec fn plugin_html(plugin: Seq<char>, raw: Seq<char>) -> Seq<char> {
    "<div class=\"markplus-plugin\" data-plugin=\""@ + plugin + "\" data-raw=\""@ + attr_escape(raw)
        + "\"></div>"@
}

/// The Typst call of a plugin block: `#markplus-<plugin>("<raw>")`.
pub open spec fn plugin_typst(plugin: Seq<char>, raw: Seq<char>) -> Seq<char> {
    "#markplus-"@ + plugin + "(\""@ + typst_escape(raw) + "\")"@
}

fn render_plugin_html(plugin: &str, token: &Json) -> (r: String)
    ensures
        r@ == plugin_html(plugin@, token_raw(token@)),
{
    let raw = raw_of(token);
    let esc = escape_attr(raw);
    let mut out = own("<div class=\"markplus-plugin\" data-plugin=\"");
    out.append(plugin);
    out.append("\" data-raw=\"");
    out.append(esc.as_str());
    out.append("\"></div>");
    out
}

fn render_plugin_typst(plugin: &str, token: &Json) -> (r: String)
    ensures
        r@ == plugin_typst(plugin@, token_raw(token@)),
{
    let raw = raw_of(token);
    let esc = escape_typst_string(raw);
    let mut out = own("#markplus-");
    out.append(plugin);
    out.append("(\"");
    out.append(esc.as_str());
    out.append("\")");
    out
}

/// The `mermaid` diagram plugin.
pub struct MermaidPlugin;

impl Plugin for MermaidPlugin {
    open spec fn plugin_name(&self) -> Seq<char> {
        "mermaid"@
    }

    fn name(&self) -> (r: &'static str) {
        "mermaid"
    }

    fn render_html(&self, token: &Json) -> (r: Option<String>)
        ensures
            r matches Some(h) && h@ == plugin_html("mermaid"@, token_raw(token@)),
    {
        Some(render_plugin_html("mermaid", token))
    }

    open spec fn typst_of(&self, token: JsonV) -> Option<Seq<char>> {
        Some(plugin_typst("mermaid"@, token_raw(token)))
    }

    fn render_typst(&self, token: &Json) -> (r: Option<String>)
        ensures
            r matches Some(t) && t@ == plugin_typst("mermaid"@, token_raw(token@)),
    {
        Some(render_plugin_typst("mermaid", token))
    }
}

/// The `simby` block-diagram plugin.
pub struct SimbyPlugin;

impl Plugin for SimbyPlugin {
    open spec fn plugin_name(&self) -> Seq<char> {
        "simby"@
    }

    fn name(&self) -> (r: &'static str) {
        "simby"
    }

    fn render_html(&self, token: &Json) -> (r: Option<String>)
        ensures
            r matches Some(h) && h@ == plugin_html("simby"@, token_raw(token@)),
    {
        Some(render_plugin_html("simby", token))
    }

    open spec fn typst_of(&self, token: JsonV) -> Option<Seq<char>> {
        Some(plugin_typst("simby"@, token_raw(token)))
    }

    fn render_typst(&self, token: &Json) -> (r: Option<String>)
        ensures
            r matches Some(t) && t@ == plugin_typst("simby"@, token_raw(token@)),
    {
        Some(render_plugin_typst("simby", token))
    }
}

/// The names `ns` once a plugin named `n` is registered: a new name comes
/// last, a known one keeps its place.
pub open spec fn names_registered(ns: Seq<Seq<char>>, n: Seq<char>) -> Seq<Seq<char>> {
    if ns.contains(n) {
        ns
    } else {
        ns.push(n)
    }
}

/// A registered name stays registered, and registering a plugin makes its
/// name known (so `get` finds a plugin under it).
pub proof fn lemma_register_then_found(ns: Seq<Seq<char>>, n: Seq<char>, m: Seq<char>)
    ensures
        names_registered(ns, n).contains(n),
        ns.contains(m) ==> names_registered(ns, n).contains(m),
{
    if !ns.contains(n) {
        assert(ns.push(n)[ns.len() as int] == n);
        if ns.contains(m) {
            let j = choose|j: int| 0 <= j < ns.len() && ns[j] == m;
            assert(ns.push(n)[j] == m);
        }
    }
}

/// The index of the first `n` in `ns`, if there is one.
pub open spec fn first_index(ns: Seq<Seq<char>>, n: Seq<char>) -> Option<int>
    decreases ns.len(),
{
    if ns.len() == 0 {
        None
    } else {
        match first_index(ns.drop_last(), n) {
            Some(i) => Some(i),
            None => if ns.last() == n {
                Some(ns.len() - 1)
            } else {
                None
            },
        }
    }
}

proof fn lemma_first_index(ns: Seq<Seq<char>>, n: Seq<char>)
    ensures
        first_index(ns, n) matches Some(k) ==> 0 <= k < ns.len() && ns[k] == n && forall|j: int|
            0 <= j < k ==> ns[j] != n,
        first_index(ns, n) is None ==> !ns.contains(n),
    decreases ns.len(),
{
    if ns.len() > 0 {
        lemma_first_index(ns.drop_last(), n);
        assert forall|j: int| 0 <= j < ns.len() - 1 implies ns[j] == ns.drop_last()[j] by {}
        if first_index(ns, n) is None {
            assert forall|j: int| 0 <= j < ns.len() implies ns[j] != n by {
                if j < ns.len() - 1 {
                    assert(ns.drop_last()[j] == ns[j]);
                }
            }
        }
    }
}

/// Plugins by name.
pub struct PluginRegistry {
    plugins: Vec<(String, Box<dyn Plugin>)>,
}

impl PluginRegistry {
    /// Each plugin is registered under its own name.
    #[verifier::type_invariant]
    spec fn names_match(&self) -> bool {
        forall|i: int|
            0 <= i < self.plugins@.len() ==> #[trigger] self.plugins@[i].0@ == self.plugins@[i].1.plugin_name()
    }

    /// The names of the registered plugins, in registration order.
    pub closed spec fn names(&self) -> Seq<Seq<char>> {
        self.plugins@.map_values(|e: (String, Box<dyn Plugin>)| e.0@)
    }

    /// An empty registry.
    pub fn new() -> (r: PluginRegistry)
        ensures
            r.names() == Seq::<Seq<char>>::empty(),
    {
        let r = PluginRegistry { plugins: Vec::new() };
        assert(r.names() =~= Seq::<Seq<char>>::empty());
        r
    }

    /// The Typst markup that the plugin registered under `name` gives for
    /// `token`; `None` when no plugin is registered under that name.
    pub closed spec fn typst_by(&self, name: Seq<char>, token: JsonV) -> Option<Option<Seq<char>>> {
        match first_index(self.names(), name) {
            Some(i) => Some(self.plugins@[i].1.typst_of(token)),
            None => None,
        }
    }

    /// The index of `name` among the names, if it is one.
    fn find(&self, name: &str) -> (r: Option<usize>)
        ensures
            match r {
                Some(i) => i < self.plugins@.len() && self.names()[i as int] == name@ && forall|j: int|
                    0 <= j < i ==> self.names()[j] != name@,
                None => !self.names().contains(name@),
            },
            r matches Some(i) ==> first_index(self.names(), name@) == Some(i as int),
            r is None ==> first_index(self.names(), name@) is None,
    {
        proof {
            lemma_first_index(self.names(), name@);
        }
        let mut i: usize = 0;
        while i < self.plugins.len()
            invariant
                i <= self.plugins@.len(),
                self.names().len() == self.plugins@.len(),
                forall|j: int| 0 <= j < i ==> self.names()[j] != name@,
                first_index(self.names(), name@) matches Some(k) ==> 0 <= k < self.names().len()
                    && self.names()[k] == name@ && forall|j: int| 0 <= j < k ==> self.names()[j] != name@,
                first_index(self.names(), name@) is None ==> !self.names().contains(name@),
            decreases self.plugins.len() - i,
        {
            if str_eq(self.plugins[i].0.as_str(), name) {
                proof {
                    assert(self.names()[i as int] == name@);
                    if let Some(k) = first_index(self.names(), name@) {
                        if k < i {
                            assert(self.names()[k] != name@);
                        } else if k > i {
                            assert(self.names()[i as int] != name@);
                        }
                    } else {
                        assert(self.names().contains(name@));
                    }
                }
                return Some(i);
            }
            i = i + 1;
        }
        None
    }

    /// The Typst markup of `token` from the plugin registered under `name`:
    /// `None` when there is none, else what that plugin renders.
    pub(crate) fn render_typst_by(&self, name: &str, token: &Json) -> (r: Option<Option<String>>)
        ensures
            match self.typst_by(name@, token@) {
                Some(x) => r matches Some(y) && opt_view(y) == x,
                None => r is None,
            },
    {
        match self.find(name) {
            Some(i) => Some(self.plugins[i].1.render_typst(token)),
            None => None,
        }
    }

    /// Registers `plugin` under its name, in place of any plugin of that name.
    pub fn register(&mut self, plugin: Box<dyn Plugin>)
        ensures
            final(self).names() == names_registered(old(self).names(), plugin.plugin_name()),
            forall|t: JsonV| #[trigger] final(self).typst_by(plugin.plugin_name(), t) == Some(plugin.typst_of(t)),
            forall|m: Seq<char>, t: JsonV|
                m != plugin.plugin_name() ==> #[trigger] final(self).typst_by(m, t) == old(self).typst_by(m, t),
    {
        let name = plugin.name();
        let ghost ns = self.names();
        let ghost p0 = plugin;
        proof {
            lemma_first_index(ns, name@);
        }
        proof {
            use_type_invariant(&*self);
        }
        let found = self.find(name);
        let mut ps: Vec<(String, Box<dyn Plugin>)> = Vec::new();
        std::mem::swap(&mut ps, &mut self.plugins);
        let ghost old_ps = ps@;
        assert(old_ps == old(self).plugins@);
        match found {
            Some(i) => {
                let entry = (own(name), plugin);
                let ghost e = entry;
                ps.set(i, entry);
                self.plugins = ps;
                assert(self.plugins@ == old_ps.update(i as int, e));
                assert(self.plugins@.len() == old_ps.len());
                assert forall|j: int| 0 <= j < old_ps.len() implies #[trigger] self.names()[j] == ns[j] by {
                    if j != i {
                        assert(self.plugins@[j] == old_ps[j]);
                    }
                }
                assert(self.names() =~= ns);
                assert(self.plugins@[i as int].1 == p0);
                assert forall|m: Seq<char>, t: JsonV| m != name@ implies #[trigger] self.typst_by(m, t)
                    == old(self).typst_by(m, t) by {
                    lemma_first_index(ns, m);
                    if let Some(j) = first_index(ns, m) {
                        assert(ns[j] == m);
                        assert(j != i);
                        assert(self.plugins@[j] == old_ps[j]);
                    }
                }
            },
            None => {
                let entry = (own(name), plugin);
                let ghost e = entry;
                ps.push(entry);
                self.plugins = ps;
                assert(self.plugins@ == old_ps.push(e));
                assert(self.plugins@.len() == old_ps.len() + 1);
                assert(self.plugins@[old_ps.len() as int].0@ == name@);
                assert(self.names() =~= ns.push(name@));
                assert(self.names().drop_last() =~= ns);
                assert(first_index(self.names(), name@) == Some(ns.len() as int));
                assert(self.plugins@[ns.len() as int].1 == p0);
                assert forall|m: Seq<char>, t: JsonV| m != name@ implies #[trigger] self.typst_by(m, t)
                    == old(self).typst_by(m, t) by {
                    assert(first_index(self.names(), m) == first_index(ns, m));
                    lemma_first_index(ns, m);
                    if let Some(j) = first_index(ns, m) {
                        assert(self.plugins@[j] == old_ps[j]);
                    }
                }
            },
        }
    }

    /// The plugin registered under `name`, if any.
    pub fn get(&self, name: &str) -> (r: Option<&Box<dyn Plugin>>)
        ensures
            r is Some <==> self.names().contains(name@),
            r matches Some(p) ==> p.plugin_name() == name@ && forall|t: JsonV|
                #[trigger] self.typst_by(name@, t) == Some(p.typst_of(t)),
    {
        proof {
            use_type_invariant(self);
        }
        match self.find(name) {
            Some(i) => {
                assert(self.names()[i as int] == self.plugins@[i as int].0@);
                Some(&self.plugins[i].1)
            },
            None => None,
        }
    }
}

/// The registry of this crate's plugins: `mermaid` and `simby`.
pub fn default_registry() -> (r: PluginRegistry)
    ensures
        r.names() == seq!["mermaid"@, "simby"@],
        forall|t: JsonV| #[trigger] r.typst_by("mermaid"@, t) == Some(
            Some(plugin_typst("mermaid"@, token_raw(t))),
        ),
        forall|t: JsonV| #[trigger] r.typst_by("simby"@, t) == Some(Some(plugin_typst("simby"@, token_raw(t)))),
{
    let mut reg = PluginRegistry::new();
    reg.register(Box::new(MermaidPlugin));
    reg.register(Box::new(SimbyPlugin));
    proof {
        reveal_strlit("mermaid");
        reveal_strlit("simby");
        assert(!Seq::<Seq<char>>::empty().contains("mermaid"@));
        assert("mermaid"@[0] != "simby"@[0]);
        assert(seq!["mermaid"@][0] != "simby"@);
        assert(!seq!["mermaid"@].contains("simby"@));
    }
    assert(reg.names() =~= seq!["mermaid"@, "simby"@]);
    reg
}

/// Escaping for a Typst string leaves no double quote without a backslash
/// before it.
pub proof fn lemma_typst_escape_safe(s: Seq<char>)
    ensures
        forall|i: int|
            0 <= i < typst_escape(s).len() && #[trigger] typst_escape(s)[i] == '"' ==> i > 0
                && typst_escape(s)[i - 1] == '\\',
    decreases s.len(),
{
    if s.len() > 0 {
        lemma_typst_escape_safe(s.drop_last());
        let a = typst_escape(s.drop_last());
        let b = typst_escape_char(s.last());
        assert forall|i: int| 0 <= i < (a + b).len() && #[trigger] (a + b)[i] == '"' implies i > 0
            && (a + b)[i - 1] == '\\' by {
            if i >= a.len() {
                assert((a + b)[i] == b[i - a.len()]);
                if s.last() == '"' {
                    assert(i - a.len() == 1);
                    assert((a + b)[i - 1] == b[0]);
                }
            } else {
                assert((a + b)[i] == a[i]);
                assert((a + b)[i - 1] == a[i - 1]);
            }
        }
    }
}

} // verus!
