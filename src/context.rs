//! The capture context of a matched rule: the variables its templates see.

use vstd::prelude::*;
use vstd::utf8::encode_utf8;
use crate::message::opts_view;

verus! {

/// The reserved key under which the whole message body is always present.
pub open spec fn body_key() -> Seq<char> {
    seq!['m', 's', 'g']
}

/// The variables that a list of bindings defines: a later binding of a name
/// overrides an earlier one.
pub open spec fn bindings_map(s: Seq<(String, String)>) -> Map<Seq<char>, Seq<char>>
    decreases s.len(),
{
    if s.len() == 0 {
        Map::empty()
    } else {
        bindings_map(s.subrange(0, s.len() - 1)).insert(s[s.len() - 1].0@, s[s.len() - 1].1@)
    }
}

/// The first `n` capture groups bound over the body binding: each group
/// that has a name and took part in the match binds its name to its text.
pub open spec fn captures_upto(
    names: Seq<Option<Seq<char>>>,
    groups: Seq<Option<Seq<char>>>,
    body: Seq<char>,
    n: int,
) -> Map<Seq<char>, Seq<char>>
    decreases n,
{
    if n <= 0 {
        map![body_key() => body]
    } else {
        let prev = captures_upto(names, groups, body, n - 1);
        if names[n - 1] is Some && groups[n - 1] is Some {
            prev.insert(names[n - 1]->0, groups[n - 1]->0)
        } else {
            prev
        }
    }
}

/// The context of a match: the body under the reserved key, and every named
/// group that took part in the match under its name.
pub open spec fn context_of(
    names: Seq<Option<Seq<char>>>,
    groups: Seq<Option<Seq<char>>>,
    body: Seq<char>,
) -> Map<Seq<char>, Seq<char>> {
    captures_upto(names, groups, body, if names.len() <= groups.len() {
        names.len() as int
    } else {
        groups.len() as int
    })
}

proof fn lemma_upto_keeps_group(
    names: Seq<Option<Seq<char>>>,
    groups: Seq<Option<Seq<char>>>,
    body: Seq<char>,
    i: int,
    n: int,
)
    requires
        0 <= i < n <= names.len(),
        n <= groups.len(),
        names[i] is Some,
        groups[i] is Some,
        forall|j: int| i < j < n ==> names[j] != names[i],
    ensures
        captures_upto(names, groups, body, n).contains_key(names[i]->0),
        captures_upto(names, groups, body, n)[names[i]->0] == groups[i]->0,
    decreases n,
{
    if n > i + 1 {
        lemma_upto_keeps_group(names, groups, body, i, n - 1);
    }
}

/// Every named group that took part in the match is bound under its
/// declared name to the text it captured (a name that a later group
/// repeats is bound by the later one).
pub proof fn lemma_named_group_bound(
    names: Seq<Option<Seq<char>>>,
    groups: Seq<Option<Seq<char>>>,
    body: Seq<char>,
    i: int,
)
    requires
        0 <= i < names.len(),
        i < groups.len(),
        names[i] is Some,
        groups[i] is Some,
        forall|j: int| i < j < names.len() && j < groups.len() ==> names[j] != names[i],
    ensures
        context_of(names, groups, body).contains_key(names[i]->0),
        context_of(names, groups, body)[names[i]->0] == groups[i]->0,
{
    let n = if names.len() <= groups.len() {
        names.len() as int
    } else {
        groups.len() as int
    };
    lemma_upto_keeps_group(names, groups, body, i, n);
}

proof fn lemma_upto_keys(
    names: Seq<Option<Seq<char>>>,
    groups: Seq<Option<Seq<char>>>,
    body: Seq<char>,
    n: int,
    k: Seq<char>,
)
    requires
        0 <= n <= names.len(),
        n <= groups.len(),
        captures_upto(names, groups, body, n).contains_key(k),
    ensures
        k == body_key() || exists|i: int|
            0 <= i < n && names[i] == Some(k) && #[trigger] groups[i] is Some,
    decreases n,
{
    if n > 0 {
        let prev = captures_upto(names, groups, body, n - 1);
        if prev.contains_key(k) {
            lemma_upto_keys(names, groups, body, n - 1, k);
        } else {
            assert(names[n - 1] == Some(k) && groups[n - 1] is Some);
        }
    }
}

/// No key but the body's and the names of groups that took part in the
/// match: an unnamed group never becomes a key.
pub proof fn lemma_context_keys(
    names: Seq<Option<Seq<char>>>,
    groups: Seq<Option<Seq<char>>>,
    body: Seq<char>,
    k: Seq<char>,
)
    requires
        context_of(names, groups, body).contains_key(k),
    ensures
        k == body_key() || exists|i: int|
            0 <= i < names.len() && i < groups.len() && names[i] == Some(k)
                && #[trigger] groups[i] is Some,
{
    let n = if names.len() <= groups.len() {
        names.len() as int
    } else {
        groups.len() as int
    };
    lemma_upto_keys(names, groups, body, n, k);
}

/// No two groups share a name.
pub open spec fn unique_names(names: Seq<Option<Seq<char>>>) -> bool {
    forall|i: int, j: int|
        0 <= i < j < names.len() && names[i] is Some && names[j] is Some ==> names[i] != names[j]
}

/// Every named group that took part in the match is bound under its name to
/// the text it captured.
pub open spec fn binds_participating(
    ctx: Map<Seq<char>, Seq<char>>,
    names: Seq<Option<Seq<char>>>,
    groups: Seq<Option<Seq<char>>>,
) -> bool {
    forall|i: int|
        0 <= i < names.len() && i < groups.len() && names[i] is Some && #[trigger] groups[i] is Some
            ==> ctx.contains_key(names[i]->0) && ctx[names[i]->0] == groups[i]->0
}

/// Every key is the body's or the name of a group that took part in the
/// match: neither an unnamed group nor a group that captured nothing
/// becomes a key.
pub open spec fn only_participating_keys(
    ctx: Map<Seq<char>, Seq<char>>,
    names: Seq<Option<Seq<char>>>,
    groups: Seq<Option<Seq<char>>>,
) -> bool {
    forall|k: Seq<char>|
        #[trigger] ctx.contains_key(k) ==> k == body_key() || exists|i: int|
            0 <= i < names.len() && i < groups.len() && names[i] == Some(k)
                && #[trigger] groups[i] is Some
}

/// Variables by name, for rendering a rule's templates.
pub struct CaptureContext {
    bindings: Vec<(String, String)>,
}

impl View for CaptureContext {
    type V = Map<Seq<char>, Seq<char>>;

    closed spec fn view(&self) -> Map<Seq<char>, Seq<char>> {
        bindings_map(self.bindings@)
    }
}

/// The result of rendering a template against a set of variables, `None`
/// where rendering fails (a malformed template, or a variable that is not
/// in the set).
pub uninterp spec fn rendered(template: Seq<char>, vars: Map<Seq<char>, Seq<char>>) -> Option<
    Seq<char>,
>;

/// Relies on handlebars::Handlebars::render_template with a fresh registry
/// in strict mode: the rendered text, or an error (a malformed template, or
/// a variable the data lacks); the data is a map from name to text.
/// A partial that includes itself recurses without bound (the registry
/// guards only named templates), hence the `requires`.
#[verifier::external_body]
fn render(template: &str, ctx: &CaptureContext) -> (r: Option<String>)
    requires
        no_partial_include(encode_utf8(template@)),
    ensures
        match r {
            Some(s) => rendered(template@, ctx@) == Some(s@),
            None => rendered(template@, ctx@) is None,
        },
{
    let mut data: std::collections::HashMap<&str, &str> = std::collections::HashMap::new();
    for (k, v) in ctx.bindings.iter() {
        data.insert(k.as_str(), v.as_str());
    }
    let mut registry = handlebars::Handlebars::new();
    registry.set_strict_mode(true);
    registry.render_template(template, &data).ok()
}

/// A byte that may stand between a tag's opening braces and the character
/// that says what kind of tag it is: whitespace, `~` or `#`.
pub open spec fn tag_filler(c: u8) -> bool {
    c == 32u8 || c == 9u8 || c == 10u8 || c == 13u8 || c == 126u8 || c == 35u8
}

/// The first position at or after `j` whose byte is not a tag filler.
pub open spec fn skip_filler(b: Seq<u8>, j: int) -> int
    decreases b.len() - j,
{
    if j < 0 || j >= b.len() {
        b.len() as int
    } else if tag_filler(b[j]) {
        skip_filler(b, j + 1)
    } else {
        j
    }
}

/// Whether `{{` at position `i` opens a partial include (`{{>`, `{{#>`, with
/// any `~` or whitespace between).
pub open spec fn opens_partial(b: Seq<u8>, i: int) -> bool {
    0 <= i && i + 1 < b.len() && b[i] == 123u8 && b[i + 1] == 123u8 && skip_filler(b, i + 2)
        < b.len() && b[skip_filler(b, i + 2)] == 62u8
}

/// Whether a template's bytes include no partial.
pub open spec fn no_partial_include(b: Seq<u8>) -> bool {
    forall|i: int| 0 <= i < b.len() ==> !#[trigger] opens_partial(b, i)
}

/// What rendering a template gives: a template that includes a partial is
/// refused like a malformed one.
pub open spec fn render_result(template: Seq<char>, vars: Map<Seq<char>, Seq<char>>) -> Option<
    Seq<char>,
> {
    if no_partial_include(encode_utf8(template)) {
        rendered(template, vars)
    } else {
        None
    }
}

/// Tests `no_partial_include` on the bytes of a template.
pub fn check_no_partial(template: &str) -> (r: bool)
    ensures
        r == no_partial_include(encode_utf8(template@)),
{
    let b = template.as_bytes();
    let n = b.len();
    let ghost bv = b@;
    let mut i: usize = 0;
    while i < n
        invariant
            i <= n,
            n == bv.len(),
            bv == b@,
            bv == encode_utf8(template@),
            forall|k: int| 0 <= k < i ==> !#[trigger] opens_partial(bv, k),
        decreases n - i,
    {
        if n - i > 1 && b[i] == 123u8 && b[i + 1] == 123u8 {
            let mut k: usize = i + 2;
            while k < n && (b[k] == 32u8 || b[k] == 9u8 || b[k] == 10u8 || b[k] == 13u8
                || b[k] == 126u8 || b[k] == 35u8)
                invariant
                    i + 2 <= k <= n,
                    n == bv.len(),
                    bv == b@,
                    skip_filler(bv, i + 2) == skip_filler(bv, k as int),
                decreases n - k,
            {
                k = k + 1;
            }
            if k < n && b[k] == 62u8 {
                proof {
                    assert(opens_partial(bv, i as int));
                }
                return false;
            }
        }
        proof {
            assert(!opens_partial(bv, i as int));
        }
        i = i + 1;
    }
    true
}

/// Renders a template against a context: `None` where the template is
/// malformed or includes a partial.
pub fn render_template(template: &str, ctx: &CaptureContext) -> (r: Option<String>)
    ensures
        match r {
            Some(s) => render_result(template@, ctx@) == Some(s@),
            None => render_result(template@, ctx@) is None,
        },
{
    if !check_no_partial(template) {
        return None;
    }
    render(template, ctx)
}

proof fn lemma_bindings_suffix(s: Seq<(String, String)>, k: Seq<char>, n: int)
    requires
        0 <= n <= s.len(),
        forall|j: int| n <= j < s.len() ==> s[j].0@ != k,
    ensures
        bindings_map(s).contains_key(k) == bindings_map(s.subrange(0, n)).contains_key(k),
        bindings_map(s).contains_key(k) ==> bindings_map(s)[k] == bindings_map(
            s.subrange(0, n),
        )[k],
    decreases s.len() - n,
{
    if n < s.len() {
        assert(s.subrange(0, s.len() - 1).subrange(0, n) =~= s.subrange(0, n));
        lemma_bindings_suffix(s.subrange(0, s.len() - 1), k, n);
    } else {
        assert(s.subrange(0, n) =~= s);
    }
}

impl CaptureContext {
    /// A context that binds only the body, under the reserved key.
    pub fn new(body: &str) -> (r: CaptureContext)
        ensures
            r@ == map![body_key() => body@],
    {
        let mut bindings: Vec<(String, String)> = Vec::new();
        let key = "msg".to_owned();
        proof {
            reveal_strlit("msg");
            assert(key@ =~= body_key());
        }
        bindings.push((key, body.to_owned()));
        let r = CaptureContext { bindings };
        proof {
            assert(r.bindings@.subrange(0, 0) =~= Seq::<(String, String)>::empty());
            assert(bindings_map(Seq::<(String, String)>::empty()) == Map::<Seq<char>, Seq<char>>::empty());
            assert(r@ =~= map![body_key() => body@]);
        }
        r
    }

    /// Binds `name` to `value`, replacing an earlier binding of `name`.
    pub fn insert(&mut self, name: String, value: String)
        ensures
            final(self)@ == old(self)@.insert(name@, value@),
    {
        let ghost before = self.bindings@;
        self.bindings.push((name, value));
        proof {
            assert(self.bindings@.subrange(0, self.bindings@.len() - 1) =~= before);
        }
    }

    /// The value bound to `name`, if any.
    pub fn get(&self, name: &str) -> (r: Option<&str>)
        ensures
            match r {
                Some(v) => self@.contains_key(name@) && self@[name@] == v@,
                None => !self@.contains_key(name@),
            },
    {
        let key = name.to_owned();
        let mut i: usize = self.bindings.len();
        while i > 0
            invariant
                i <= self.bindings@.len(),
                key@ == name@,
                forall|j: int| i <= j < self.bindings@.len() ==> self.bindings@[j].0@ != name@,
            decreases i,
        {
            if self.bindings[i - 1].0 == key {
                proof {
                    lemma_bindings_suffix(self.bindings@, name@, i as int);
                    assert(self.bindings@.subrange(0, i as int).subrange(0, i - 1)
                        =~= self.bindings@.subrange(0, i - 1));
                }
                return Some(self.bindings[i - 1].1.as_str());
            }
            i = i - 1;
        }
        proof {
            lemma_bindings_suffix(self.bindings@, name@, 0);
        }
        None
    }

    /// The context of a match: the body under the reserved key, then each
    /// group, in order, that has a name and captured text, under its name.
    pub fn from_groups(
        names: &Vec<Option<String>>,
        groups: &Vec<Option<String>>,
        body: &str,
    ) -> (r: CaptureContext)
        ensures
            r@ == context_of(opts_view(names@), opts_view(groups@), body@),
            only_participating_keys(r@, opts_view(names@), opts_view(groups@)),
            unique_names(opts_view(names@)) ==> binds_participating(
                r@,
                opts_view(names@),
                opts_view(groups@),
            ),
    {
        let ghost nv = opts_view(names@);
        let ghost gv = opts_view(groups@);
        let n: usize = if names.len() <= groups.len() {
            names.len()
        } else {
            groups.len()
        };
        let mut ctx = CaptureContext::new(body);
        let mut i: usize = 0;
        while i < n
            invariant
                i <= n,
                n <= names@.len(),
                n <= groups@.len(),
                nv == opts_view(names@),
                gv == opts_view(groups@),
                ctx@ == captures_upto(nv, gv, body@, i as int),
            decreases n - i,
        {
            match (&names[i], &groups[i]) {
                (Some(name), Some(text)) => {
                    ctx.insert(name.clone(), text.clone());
                },
                _ => {},
            }
            i = i + 1;
        }
        proof {
            assert forall|k: Seq<char>| #[trigger] ctx@.contains_key(k) implies k == body_key()
                || exists|i: int|
                0 <= i < nv.len() && i < gv.len() && nv[i] == Some(k) && #[trigger] gv[i] is Some by {
                lemma_context_keys(nv, gv, body@, k);
            }
            if unique_names(nv) {
                assert forall|i: int|
                    0 <= i < nv.len() && i < gv.len() && nv[i] is Some
                        && #[trigger] gv[i] is Some implies ctx@.contains_key(nv[i]->0)
                    && ctx@[nv[i]->0] == gv[i]->0 by {
                    lemma_named_group_bound(nv, gv, body@, i);
                }
            }
        }
        ctx
    }
}

} // verus!
