//! Paths inside a DS file system: names separated by `/`.
use crate::text::string_push;
use vstd::prelude::*;

verus! {

/// A path such as `a/b/c`; empty components (leading, trailing or doubled slashes) are
/// ignored.
#[derive(Debug, PartialEq, Eq, Clone, Hash)]
pub struct NdsPath(String);

impl View for NdsPath {
    type V = Seq<char>;

    closed spec fn view(&self) -> Seq<char> {
        self.0@
    }
}

/// The components of `s` after the partial component `cur`: the maximal runs of characters
/// other than `/`, in order.
pub open spec fn components_from(s: Seq<char>, cur: Seq<char>) -> Seq<Seq<char>>
    decreases s.len(),
{
    if s.len() == 0 {
        if cur.len() > 0 { seq![cur] } else { seq![] }
    } else if s[0] == '/' {
        (if cur.len() > 0 { seq![cur] } else { seq![] }) + components_from(s.drop_first(), seq![])
    } else {
        components_from(s.drop_first(), cur.push(s[0]))
    }
}

/// The non-empty `/`-separated components of `s`.
pub open spec fn path_components(s: Seq<char>) -> Seq<Seq<char>> {
    components_from(s, seq![])
}

/// The text after pushing `component` onto the path text `s`: a `/` goes between them
/// unless `s` is empty or already ends with one.
pub open spec fn pushed_path(s: Seq<char>, component: Seq<char>) -> Seq<char> {
    if s.len() > 0 && s.last() != '/' { s + seq!['/'] + component } else { s + component }
}

/// The views of a list of strings.
pub open spec fn string_views(v: Seq<String>) -> Seq<Seq<char>> {
    v.map_values(|x: String| x@)
}

impl NdsPath {
    /// The empty path (the root).
    pub fn new() -> (p: Self)
        ensures
            p@ == Seq::<char>::empty(),
    {
        NdsPath(String::new())
    }

    /// Appends a component, with a `/` before it unless the path is empty or ends with one.
    pub fn push(&mut self, component: &str)
        ensures
            final(self)@ == pushed_path(old(self)@, component@),
    {
        let n = self.0.as_str().unicode_len();
        if n > 0 && self.0.as_str().get_char(n - 1) != '/' {
            string_push(&mut self.0, '/');
        }
        self.0.append(component);
    }

    /// The non-empty components, in order.
    pub fn components(&self) -> (r: Vec<String>)
        ensures
            string_views(r@) == path_components(self@),
    {
        let s = self.0.as_str();
        let n = s.unicode_len();
        let mut out: Vec<String> = Vec::new();
        let mut cur = String::new();
        let mut i: usize = 0;
        assert(s@.subrange(0, n as int) =~= s@);
        assert(string_views(out@) =~= Seq::<Seq<char>>::empty());
        assert(Seq::<Seq<char>>::empty() + path_components(s@) =~= path_components(s@));
        while i < n
            invariant
                i <= n,
                n == s@.len(),
                s@ == self@,
                path_components(s@) == string_views(out@) + components_from(s@.subrange(i as int, n as int), cur@),
            decreases n - i,
        {
            let c = s.get_char(i);
            proof {
                let rest = s@.subrange(i as int, n as int);
                let next = s@.subrange(i + 1, n as int);
                assert(rest[0] == c);
                assert(rest.drop_first() =~= next);
                assert(components_from(rest, cur@) == (if c == '/' {
                    (if cur@.len() > 0 { seq![cur@] } else { seq![] }) + components_from(next, seq![])
                } else {
                    components_from(next, cur@.push(c))
                }));
            }
            if c == '/' {
                let ghost before = out@;
                let ghost old_cur = cur@;
                if cur.as_str().unicode_len() > 0 {
                    out.push(cur);
                    proof {
                        assert(string_views(out@) =~= string_views(before) + seq![old_cur]);
                    }
                    cur = String::new();
                } else {
                    assert(string_views(before) + Seq::<Seq<char>>::empty() =~= string_views(before));
                }
                proof {
                    let next = s@.subrange(i + 1, n as int);
                    assert(cur@ =~= Seq::<char>::empty());
                    assert(string_views(before) + ((if old_cur.len() > 0 { seq![old_cur] } else { seq![] }) + components_from(next, seq![]))
                        =~= string_views(out@) + components_from(next, cur@));
                }
            } else {
                string_push(&mut cur, c);
            }
            i = i + 1;
        }
        proof {
            assert(s@.subrange(n as int, n as int) =~= Seq::<char>::empty());
        }
        let ghost before = out@;
        let ghost last = cur@;
        if cur.as_str().unicode_len() > 0 {
            out.push(cur);
            proof {
                assert(string_views(out@) =~= string_views(before) + seq![last]);
            }
        } else {
            assert(string_views(before) + Seq::<Seq<char>>::empty() =~= string_views(before));
        }
        proof {
            assert(string_views(out@) =~= path_components(s@));
        }
        out
    }

    /// Whether the path has no components (it names the root).
    pub fn is_empty(&self) -> (r: bool)
        ensures
            r == (path_components(self@).len() == 0),
    {
        let c = self.components();
        proof {
            assert(string_views(c@).len() == c@.len());
        }
        c.len() == 0
    }

    /// The path as text.
    pub fn to_display_string(&self) -> (r: String)
        ensures
            r@ == self@,
    {
        self.0.clone()
    }
}

impl Default for NdsPath {
    fn default() -> (p: Self)
        ensures
            p@ == Seq::<char>::empty(),
    {
        Self::new()
    }
}

/// A path whose text is `s`.
pub open spec fn path_of(s: Seq<char>) -> NdsPath {
    choose|p: NdsPath| #[trigger] p@ == s
}

impl From<&str> for NdsPath {
    /// The path whose text is `s`.
    fn from(s: &str) -> (p: Self)
        ensures
            p@ == s@,
    {
        let p = NdsPath(s.to_string());
        assert(p@ == s@);
        p
    }
}

impl vstd::std_specs::convert::FromSpecImpl<&str> for NdsPath {
    open spec fn obeys_from_spec() -> bool {
        false
    }

    open spec fn from_spec(s: &str) -> Self {
        path_of(s@)
    }
}

impl From<String> for NdsPath {
    /// The path whose text is `s`.
    fn from(s: String) -> (p: Self)
        ensures
            p@ == s@,
    {
        let p = NdsPath(s);
        assert(p@ == s@);
        p
    }
}

impl vstd::std_specs::convert::FromSpecImpl<String> for NdsPath {
    open spec fn obeys_from_spec() -> bool {
        false
    }

    open spec fn from_spec(s: String) -> Self {
        path_of(s@)
    }
}

/// Splitting a text after a `/`: its components are those of the part up to the slash
/// followed by those of the rest.
proof fn lemma_components_split(a: Seq<char>, b: Seq<char>, cur: Seq<char>)
    requires
        a.len() > 0,
        a.last() == '/',
    ensures
        components_from(a + b, cur) == components_from(a, cur) + components_from(b, seq![]),
    decreases a.len(),
{
    assert((a + b).drop_first() =~= a.drop_first() + b);
    if a.len() == 1 {
        assert(a.drop_first() =~= Seq::<char>::empty());
        assert(a.drop_first() + b =~= b);
        assert(components_from(a.drop_first(), seq![]) =~= Seq::<Seq<char>>::empty());
        let head: Seq<Seq<char>> = if cur.len() > 0 { seq![cur] } else { seq![] };
        assert(head + Seq::<Seq<char>>::empty() =~= head);
    } else {
        lemma_components_split(a.drop_first(), b, if a[0] == '/' { seq![] } else { cur.push(a[0]) });
    }
}

/// A slash at the end adds no component.
proof fn lemma_components_trailing_slash(s: Seq<char>, cur: Seq<char>)
    ensures
        components_from(s + seq!['/'], cur) == components_from(s, cur),
    decreases s.len(),
{
    if s.len() == 0 {
        assert(s + seq!['/'] =~= seq!['/']);
        assert(seq!['/'].drop_first() =~= Seq::<char>::empty());
        assert(components_from(Seq::<char>::empty(), seq![]) =~= Seq::<Seq<char>>::empty());
        let head: Seq<Seq<char>> = if cur.len() > 0 { seq![cur] } else { seq![] };
        assert(head + Seq::<Seq<char>>::empty() =~= head);
    } else {
        assert((s + seq!['/']).drop_first() =~= s.drop_first() + seq!['/']);
        lemma_components_trailing_slash(s.drop_first(), if s[0] == '/' { seq![] } else { cur.push(s[0]) });
    }
}

/// A run without slashes is one component (with what came before it).
proof fn lemma_components_single(t: Seq<char>, cur: Seq<char>)
    requires
        cur.len() + t.len() > 0,
        forall|i: int| 0 <= i < t.len() ==> t[i] != '/',
    ensures
        components_from(t, cur) == seq![cur + t],
    decreases t.len(),
{
    if t.len() == 0 {
        assert(cur + t =~= cur);
    } else {
        assert(cur.push(t[0]) + t.drop_first() =~= cur + t);
        lemma_components_single(t.drop_first(), cur.push(t[0]));
    }
}

/// Pushing a non-empty component with no `/` in it onto a path adds exactly that component
/// to the path's components.
pub proof fn lemma_push_component(s: Seq<char>, component: Seq<char>)
    requires
        component.len() > 0,
        forall|i: int| 0 <= i < component.len() ==> component[i] != '/',
    ensures
        path_components(pushed_path(s, component)) == path_components(s).push(component),
{
    lemma_components_single(component, seq![]);
    assert(Seq::<char>::empty() + component =~= component);
    if s.len() == 0 {
        assert(s + component =~= component);
        assert(path_components(s) =~= Seq::<Seq<char>>::empty());
        assert(path_components(s).push(component) =~= seq![component]);
    } else if s.last() != '/' {
        let a = s + seq!['/'];
        assert(a.last() == '/');
        lemma_components_split(a, component, seq![]);
        lemma_components_trailing_slash(s, seq![]);
        assert(s + seq!['/'] + component == a + component);
    } else {
        lemma_components_split(s, component, seq![]);
    }
}

/// The characters of `s` other than `/`, in order.
pub open spec fn without_slashes(s: Seq<char>) -> Seq<char> {
    s.filter(|c: char| c != '/')
}

/// The components after the partial component `cur` are non-empty, hold no `/`, and
/// together spell `cur` followed by the characters of `s` other than `/`.
proof fn lemma_components_from_shape(s: Seq<char>, cur: Seq<char>)
    requires
        forall|i: int| 0 <= i < cur.len() ==> cur[i] != '/',
    ensures
        forall|j: int| 0 <= j < components_from(s, cur).len() ==> (#[trigger] components_from(s, cur)[j]).len() > 0
            && forall|i: int| 0 <= i < components_from(s, cur)[j].len() ==> components_from(s, cur)[j][i] != '/',
        components_from(s, cur).flatten() == cur + without_slashes(s),
    decreases s.len(),
{
    let pred = |c: char| c != '/';
    reveal(Seq::filter);
    if s.len() == 0 {
        assert(s.filter(pred) =~= Seq::<char>::empty());
        if cur.len() > 0 {
            assert(seq![cur].drop_first() =~= Seq::<Seq<char>>::empty());
            assert(seq![cur].flatten() == cur + Seq::<Seq<char>>::empty().flatten());
        }
        assert(cur + s.filter(pred) =~= cur);
    } else {
        let rest = s.drop_first();
        assert(s =~= seq![s[0]] + rest);
        Seq::filter_distributes_over_add(seq![s[0]], rest, pred);
        assert(seq![s[0]].drop_last() =~= Seq::<char>::empty());
        assert(Seq::<char>::empty().filter(pred) =~= Seq::<char>::empty());
        if s[0] == '/' {
            lemma_components_from_shape(rest, seq![]);
            let tail = components_from(rest, seq![]);
            assert(seq![s[0]].filter(pred) =~= Seq::<char>::empty());
            if cur.len() > 0 {
                assert((seq![cur] + tail).drop_first() =~= tail);
                assert((seq![cur] + tail)[0] == cur);
                assert(cur + s.filter(pred) =~= cur + (Seq::<char>::empty() + rest.filter(pred)));
                assert forall|j: int| 0 <= j < (seq![cur] + tail).len() implies (#[trigger] (seq![cur] + tail)[j]).len() > 0
                    && forall|i: int| 0 <= i < (seq![cur] + tail)[j].len() ==> (seq![cur] + tail)[j][i] != '/' by {
                    if j > 0 {
                        assert((seq![cur] + tail)[j] == tail[j - 1]);
                    }
                }
            } else {
                assert(seq![] + tail =~= tail);
                assert(cur + s.filter(pred) =~= Seq::<char>::empty() + rest.filter(pred));
            }
        } else {
            assert(seq![s[0]].filter(pred) =~= seq![s[0]]);
            lemma_components_from_shape(rest, cur.push(s[0]));
            assert(cur.push(s[0]) + rest.filter(pred) =~= cur + (seq![s[0]] + rest.filter(pred)));
        }
    }
}

/// The components of a path are non-empty and hold no `/`, and together they spell the
/// path's characters other than `/`, in order.
pub proof fn lemma_path_components_shape(s: Seq<char>)
    ensures
        forall|j: int| 0 <= j < path_components(s).len() ==> (#[trigger] path_components(s)[j]).len() > 0
            && forall|i: int| 0 <= i < path_components(s)[j].len() ==> path_components(s)[j][i] != '/',
        path_components(s).flatten() == without_slashes(s),
{
    lemma_components_from_shape(s, seq![]);
    assert(Seq::<char>::empty() + without_slashes(s) =~= without_slashes(s));
}

} // verus!
