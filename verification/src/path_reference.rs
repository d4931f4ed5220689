use vstd::prelude::*;
use crate::ids::{DataSetError, DataSetResult, ImportableName};
use crate::path::{append_str, to_owned_string};

verus! {

/// Maps path namespaces to directories and back. Implemented by the application, which
/// owns the file system.
pub trait PathReferenceNamespaceResolver {
    /// The root directory of `namespace`, if the namespace is known.
    fn namespace_root(&self, namespace: &str) -> Option<String>;

    /// For a canonical absolute path, the namespace it lies in and its path within that
    /// namespace, if it lies in one.
    fn simplify_path(&self, path: &str) -> Option<(String, String)>;

    /// The canonical absolute form of an absolute path.
    fn canonicalize_path(&self, path: &str) -> String;
}

/// Whether `std::path::Path::new(s).is_relative()` holds for `s` on this platform.
pub uninterp spec fn path_is_relative(s: Seq<char>) -> bool;

/// `std::path::Path::is_relative` of a path given as a string.
#[verifier::external_body]
fn is_relative_path(s: &str) -> (r: bool)
    ensures
        r == path_is_relative(s@),
{
    std::path::Path::new(s).is_relative()
}

/// `pat` occurs in `s` at position `i`.
pub open spec fn occurs_at(s: Seq<char>, pat: Seq<char>, i: int) -> bool {
    0 <= i && i + pat.len() <= s.len() && s.subrange(i, i + pat.len()) == pat
}

/// The last position below `n` where `pat` occurs in `s`, or -1.
pub open spec fn last_occurrence_below(s: Seq<char>, pat: Seq<char>, n: int) -> int
    decreases n,
{
    if n <= 0 {
        -1
    } else if occurs_at(s, pat, n - 1) {
        n - 1
    } else {
        last_occurrence_below(s, pat, n - 1)
    }
}

/// The last position where `pat` occurs in `s`, or -1 (like `str::rfind`).
pub open spec fn last_occurrence(s: Seq<char>, pat: Seq<char>) -> int {
    last_occurrence_below(s, pat, s.len() - pat.len() + 1)
}

pub open spec fn namespace_delimiter() -> Seq<char> {
    seq![':', '/', '/']
}

pub open spec fn name_delimiter() -> Seq<char> {
    seq!['#']
}

/// The text of a path reference: `namespace://path#name`, leaving out `namespace://` when
/// the namespace is empty and `#name` when the name is empty.
pub open spec fn reference_text(namespace: Seq<char>, path: Seq<char>, name: Seq<char>) -> Seq<char> {
    let head = if namespace.len() == 0 {
        path
    } else {
        namespace + namespace_delimiter() + path
    };
    if name.len() == 0 {
        head
    } else {
        head + name_delimiter() + name
    }
}

/// A string that can be parsed: a `#` does not come before the end of the last `://`.
pub open spec fn parsable_reference(s: Seq<char>) -> bool {
    let n = last_occurrence(s, namespace_delimiter());
    let h = last_occurrence(s, name_delimiter());
    n >= 0 && h >= 0 ==> h >= n + 3
}

/// Namespace, path and name read from a path reference's text: the namespace is what
/// comes before the last `://`, the name what comes after the last `#`.
pub open spec fn parsed_reference(s: Seq<char>) -> (Seq<char>, Seq<char>, Seq<char>) {
    let n = last_occurrence(s, namespace_delimiter());
    let h = last_occurrence(s, name_delimiter());
    let start = if n >= 0 {
        n + 3
    } else {
        0
    };
    let namespace = if n >= 0 {
        s.subrange(0, n)
    } else {
        Seq::empty()
    };
    if h >= 0 {
        (namespace, s.subrange(start, h), s.subrange(h + 1, s.len() as int))
    } else {
        (namespace, s.subrange(start, s.len() as int), Seq::empty())
    }
}

/// The characters `start..end` of `s` as a new string.
pub(crate) fn substring(s: &str, start: usize, end: usize) -> (r: String)
    requires
        start <= end <= s@.len(),
    ensures
        r@ == s@.subrange(start as int, end as int),
{
    let mut out = String::new();
    let mut i: usize = start;
    while i < end
        invariant
            start <= i <= end,
            end <= s@.len(),
            out@ == s@.subrange(start as int, i as int),
        decreases end - i,
    {
        let c = s.get_char(i);
        crate::path::push_char_pub(&mut out, c);
        assert(s@.subrange(start as int, i + 1) =~= s@.subrange(start as int, i as int).push(c));
        i = i + 1;
    }
    out
}

/// The last position where `pat` occurs in `s` (like `str::rfind`).
pub(crate) fn rfind(s: &str, pat: &str) -> (r: Option<usize>)
    requires
        pat@.len() > 0,
    ensures
        match r {
            Some(i) => last_occurrence(s@, pat@) == i,
            None => last_occurrence(s@, pat@) == -1,
        },
{
    let n = s.unicode_len();
    let m = pat.unicode_len();
    if m > n {
        proof {
            assert(last_occurrence(s@, pat@) == -1) by {
                assert(s@.len() - pat@.len() + 1 <= 0);
            }
        }
        return None;
    }
    let mut k: usize = n - m + 1;
    while k > 0
        invariant
            n == s@.len(),
            m == pat@.len(),
            m <= n,
            k <= n - m + 1,
            last_occurrence(s@, pat@) == last_occurrence_below(s@, pat@, k as int),
        decreases k,
    {
        let i = k - 1;
        let mut same = true;
        let mut j: usize = 0;
        while j < m
            invariant
                n == s@.len(),
                m == pat@.len(),
                i + m <= n,
                j <= m,
                same == forall|t: int| 0 <= t < j ==> s@[i + t] == pat@[t],
            decreases m - j,
        {
            if s.get_char(i + j) != pat.get_char(j) {
                same = false;
            }
            j = j + 1;
        }
        proof {
            if same {
                assert(s@.subrange(i as int, i + m) =~= pat@);
            } else {
                if s@.subrange(i as int, i + m) == pat@ {
                    assert forall|t: int| 0 <= t < m implies s@[i + t] == pat@[t] by {
                        assert(s@.subrange(i as int, i + m)[t] == s@[i + t]);
                    }
                }
            }
        }
        if same {
            return Some(i);
        }
        k = i;
    }
    None
}

/// A reference to a file, possibly inside a namespace, and to an importable in that file.
/// This form is read from text and may hold an absolute path that a namespace could
/// express.
#[derive(Debug)]
pub struct PathReference {
    namespace: String,
    path: String,
    importable_name: ImportableName,
}

/// A path reference in its canonical form: any text of the same reference gives the same
/// canonical reference.
#[derive(Debug, Hash)]
pub struct CanonicalPathReference {
    namespace: String,
    path: String,
    importable_name: ImportableName,
}

impl PartialEq for CanonicalPathReference {
    fn eq(&self, other: &Self) -> (r: bool) {
        self.namespace == other.namespace && self.path == other.path && self.importable_name.0
            == other.importable_name.0
    }
}

impl vstd::std_specs::cmp::PartialEqSpecImpl for CanonicalPathReference {
    open spec fn obeys_eq_spec() -> bool {
        true
    }

    open spec fn eq_spec(&self, other: &CanonicalPathReference) -> bool {
        self.spec_namespace() == other.spec_namespace() && self.spec_path() == other.spec_path()
            && self.spec_importable_name() == other.spec_importable_name()
    }
}

impl Clone for CanonicalPathReference {
    fn clone(&self) -> (r: Self)
        ensures
            r.spec_namespace() == self.spec_namespace(),
            r.spec_path() == self.spec_path(),
            r.spec_importable_name() == self.spec_importable_name(),
    {
        CanonicalPathReference {
            namespace: self.namespace.clone(),
            path: self.path.clone(),
            importable_name: self.importable_name.clone(),
        }
    }
}

impl Clone for PathReference {
    fn clone(&self) -> (r: Self)
        ensures
            r.spec_namespace() == self.spec_namespace(),
            r.spec_path() == self.spec_path(),
            r.spec_importable_name() == self.spec_importable_name(),
    {
        PathReference {
            namespace: self.namespace.clone(),
            path: self.path.clone(),
            importable_name: self.importable_name.clone(),
        }
    }
}

fn reference_to_string(namespace: &str, path: &str, name: &ImportableName) -> (r: String)
    ensures
        r@ == reference_text(namespace@, path@, name.0@),
{
    let mut out = String::new();
    if !namespace.is_empty() {
        append_str(&mut out, namespace);
        append_str(&mut out, "://");
        proof {
            reveal_strlit("://");
        }
        assert("://"@ =~= namespace_delimiter());
    }
    append_str(&mut out, path);
    match name.name() {
        Some(n) => {
            append_str(&mut out, "#");
            proof {
                reveal_strlit("#");
            }
            assert("#"@ =~= name_delimiter());
            append_str(&mut out, n);
        },
        None => {},
    }
    proof {
        if namespace@.len() == 0 {
            assert(Seq::<char>::empty() + path@ =~= path@);
        }
    }
    out
}

impl PathReference {
    pub closed spec fn spec_namespace(&self) -> Seq<char> {
        self.namespace@
    }

    pub closed spec fn spec_path(&self) -> Seq<char> {
        self.path@
    }

    pub closed spec fn spec_importable_name(&self) -> Seq<char> {
        self.importable_name.0@
    }

    pub fn new(namespace: String, path: String, importable_name: ImportableName) -> (r: PathReference)
        ensures
            r.spec_namespace() == namespace@,
            r.spec_path() == path@,
            r.spec_importable_name() == importable_name.0@,
    {
        PathReference { namespace, path, importable_name }
    }

    pub fn namespace(&self) -> (r: &str)
        ensures
            r@ == self.spec_namespace(),
    {
        self.namespace.as_str()
    }

    pub fn path(&self) -> (r: &str)
        ensures
            r@ == self.spec_path(),
    {
        self.path.as_str()
    }

    pub fn importable_name(&self) -> (r: &ImportableName)
        ensures
            r.0@ == self.spec_importable_name(),
    {
        &self.importable_name
    }

    /// The text of the reference (see `reference_text`).
    pub fn to_string(&self) -> (r: String)
        ensures
            r@ == reference_text(self.spec_namespace(), self.spec_path(), self.spec_importable_name()),
    {
        reference_to_string(self.namespace.as_str(), self.path.as_str(), &self.importable_name)
    }

    /// Reads a reference from its text (see `parsed_reference`).
    pub fn from_text(s: &str) -> (r: PathReference)
        requires
            parsable_reference(s@),
        ensures
            (r.spec_namespace(), r.spec_path(), r.spec_importable_name()) == parsed_reference(s@),
    {
        proof {
            reveal_strlit("://");
            reveal_strlit("#");
        }
        assert("://"@ =~= namespace_delimiter());
        assert("#"@ =~= name_delimiter());
        let n = s.unicode_len();
        let ns_pos = rfind(s, "://");
        let hash_pos = rfind(s, "#");
        proof {
            lemma_last_occurrence_bounds(s@, namespace_delimiter(), s@.len() - 3 + 1);
            lemma_last_occurrence_bounds(s@, name_delimiter(), s@.len() - 1 + 1);
        }
        let (start, namespace) = match ns_pos {
            Some(p) => (p + 3, substring(s, 0, p)),
            None => (0, String::new()),
        };
        match hash_pos {
            Some(h) => {
                let path = substring(s, start, h);
                let name = substring(s, h + 1, n);
                PathReference { namespace, path, importable_name: ImportableName::new(name) }
            },
            None => {
                let path = substring(s, start, n);
                PathReference { namespace, path, importable_name: ImportableName::new(String::new()) }
            },
        }
    }

    /// Whether the path is relative (`std::path::Path::is_relative`).
    pub fn has_relative_path(&self) -> (r: bool)
        ensures
            r == path_is_relative(self.spec_path()),
    {
        is_relative_path(self.path.as_str())
    }

    /// The canonical form, given what the resolver made of the canonical absolute path
    /// (`simplified`): a reference with a namespace or a relative path stays as it is; an
    /// absolute path that lies in a namespace is expressed inside that namespace.
    pub fn simplify_with(self, simplified: Option<(String, String)>) -> (r: CanonicalPathReference)
        ensures
            r.spec_importable_name() == self.spec_importable_name(),
            (self.spec_namespace().len() != 0 || path_is_relative(self.spec_path()) || simplified is None)
                ==> r.spec_namespace() == self.spec_namespace() && r.spec_path() == self.spec_path(),
            !(self.spec_namespace().len() != 0 || path_is_relative(self.spec_path())) ==> (
            simplified matches Some(p) ==> r.spec_namespace() == p.0@ && r.spec_path() == p.1@),
    {
        if !self.namespace.as_str().is_empty() || self.has_relative_path() {
            return CanonicalPathReference {
                namespace: self.namespace,
                path: self.path,
                importable_name: self.importable_name,
            };
        }
        match simplified {
            Some((namespace, path)) => CanonicalPathReference {
                namespace,
                path,
                importable_name: self.importable_name,
            },
            None => CanonicalPathReference {
                namespace: self.namespace,
                path: self.path,
                importable_name: self.importable_name,
            },
        }
    }

    /// The canonical form: a reference with a namespace or a relative path stays as it is;
    /// an absolute path is canonicalized and, when the resolver places it in a namespace,
    /// expressed inside that namespace.
    pub fn simplify<R: PathReferenceNamespaceResolver>(self, namespace_resolver: &R) -> (r:
        CanonicalPathReference)
        ensures
            r.spec_importable_name() == self.spec_importable_name(),
            (self.spec_namespace().len() != 0 || path_is_relative(self.spec_path())) ==> r.spec_namespace()
                == self.spec_namespace() && r.spec_path() == self.spec_path(),
    {
        if !self.namespace.as_str().is_empty() || self.has_relative_path() {
            return self.simplify_with(None);
        }
        let canonical = namespace_resolver.canonicalize_path(self.path.as_str());
        let simplified = namespace_resolver.simplify_path(canonical.as_str());
        self.simplify_with(simplified)
    }
}

pub(crate) proof fn lemma_last_occurrence_bounds(s: Seq<char>, pat: Seq<char>, n: int)
    requires
        pat.len() > 0,
    ensures
        last_occurrence_below(s, pat, n) == -1 || (0 <= last_occurrence_below(s, pat, n) < n
            && occurs_at(s, pat, last_occurrence_below(s, pat, n))),
    decreases n,
{
    if n > 0 && !occurs_at(s, pat, n - 1) {
        lemma_last_occurrence_bounds(s, pat, n - 1);
    }
}

impl CanonicalPathReference {
    pub closed spec fn spec_namespace(&self) -> Seq<char> {
        self.namespace@
    }

    pub closed spec fn spec_path(&self) -> Seq<char> {
        self.path@
    }

    pub closed spec fn spec_importable_name(&self) -> Seq<char> {
        self.importable_name.0@
    }

    /// The canonical form of the reference with these parts (see `PathReference::simplify`).
    pub fn new<R: PathReferenceNamespaceResolver>(
        namespace_resolver: &R,
        namespace: String,
        path: String,
        importable_name: ImportableName,
    ) -> (r: CanonicalPathReference)
        ensures
            r.spec_importable_name() == importable_name.0@,
            (namespace@.len() != 0 || path_is_relative(path@)) ==> r.spec_namespace() == namespace@
                && r.spec_path() == path@,
    {
        PathReference::new(namespace, path, importable_name).simplify(namespace_resolver)
    }

    pub fn namespace(&self) -> (r: &str)
        ensures
            r@ == self.spec_namespace(),
    {
        self.namespace.as_str()
    }

    pub fn path(&self) -> (r: &str)
        ensures
            r@ == self.spec_path(),
    {
        self.path.as_str()
    }

    pub fn importable_name(&self) -> (r: &ImportableName)
        ensures
            r.0@ == self.spec_importable_name(),
    {
        &self.importable_name
    }

    /// The text of the reference (see `reference_text`).
    pub fn to_string(&self) -> (r: String)
        ensures
            r@ == reference_text(self.spec_namespace(), self.spec_path(), self.spec_importable_name()),
    {
        reference_to_string(self.namespace.as_str(), self.path.as_str(), &self.importable_name)
    }
}

proof fn lemma_last_occurrence_is(s: Seq<char>, pat: Seq<char>, i: int, n: int)
    requires
        occurs_at(s, pat, i),
        i < n,
        forall|j: int| i < j < n ==> !occurs_at(s, pat, j),
    ensures
        last_occurrence_below(s, pat, n) == i,
    decreases n,
{
    if n - 1 > i {
        lemma_last_occurrence_is(s, pat, i, n - 1);
    }
}

proof fn lemma_no_occurrence(s: Seq<char>, pat: Seq<char>, n: int)
    requires
        forall|j: int| 0 <= j < n ==> !occurs_at(s, pat, j),
    ensures
        last_occurrence_below(s, pat, n) == -1,
    decreases n,
{
    if n > 0 {
        lemma_no_occurrence(s, pat, n - 1);
    }
}

/// Where the absolute form of a reference's path starts from.
#[derive(Debug)]
pub enum AbsolutePathBase {
    /// The directory of the file that holds the reference (a relative path without a
    /// namespace).
    SourceDirectory,
    /// Nowhere: the path is absolute already.
    Itself,
    /// The root directory of the reference's namespace.
    NamespaceRoot(String),
}

/// Where `canonicalized_absolute_path` takes a reference's path from: a path without a
/// namespace from the source file's directory when it is relative and from itself when
/// it is absolute; a namespaced path from the namespace's root, or `UnknownPathNamespace`
/// when the resolver knows no root for the namespace.
pub fn absolute_path_base<R: PathReferenceNamespaceResolver + ?Sized>(
    reference: &PathReference,
    namespace_resolver: &R,
) -> (r: DataSetResult<AbsolutePathBase>)
    ensures
        reference.spec_namespace().len() == 0 ==> r == Ok::<AbsolutePathBase, DataSetError>(
            if path_is_relative(reference.spec_path()) {
                AbsolutePathBase::SourceDirectory
            } else {
                AbsolutePathBase::Itself
            },
        ),
        reference.spec_namespace().len() != 0 ==> match r {
            Ok(b) => b is NamespaceRoot,
            Err(e) => e == DataSetError::UnknownPathNamespace,
        },
{
    if reference.namespace().is_empty() {
        if is_relative_path(reference.path()) {
            Ok(AbsolutePathBase::SourceDirectory)
        } else {
            Ok(AbsolutePathBase::Itself)
        }
    } else {
        match namespace_resolver.namespace_root(reference.namespace()) {
            Some(root) => Ok(AbsolutePathBase::NamespaceRoot(root)),
            None => Err(DataSetError::UnknownPathNamespace),
        }
    }
}

/// Reading back the text of a path reference gives the reference again, when no part
/// holds `#` and neither the path nor the importable name holds `://`.
pub proof fn law_reference_text_round_trip(namespace: Seq<char>, path: Seq<char>, name: Seq<char>)
    requires
        !namespace.contains('#'),
        !path.contains('#'),
        !name.contains('#'),
        forall|j: int| !occurs_at(path, namespace_delimiter(), j),
        forall|j: int| !occurs_at(name, namespace_delimiter(), j),
    ensures
        parsable_reference(reference_text(namespace, path, name)),
        parsed_reference(reference_text(namespace, path, name)) == (namespace, path, name),
{
    let t = reference_text(namespace, path, name);
    let head = if namespace.len() == 0 {
        path
    } else {
        namespace + namespace_delimiter() + path
    };
    let hs = if namespace.len() == 0 {
        0int
    } else {
        namespace.len() + 3int
    };
    assert(head.len() == hs + path.len());
    assert forall|j: int| hs <= j < hs + path.len() implies head[j] == path[j - hs] by {}
    assert forall|j: int| 0 <= j < namespace.len() && namespace.len() != 0 implies head[j]
        == namespace[j] by {}
    if name.len() == 0 {
        assert(t == head);
    } else {
        assert(t == head + name_delimiter() + name);
        assert(t[head.len() as int] == '#');
        assert forall|j: int| head.len() < j < t.len() implies t[j] == name[j - head.len() - 1] by {}
    }
    assert forall|j: int| 0 <= j < head.len() implies t[j] == head[j] by {}
    // where '#' can be
    assert forall|j: int| 0 <= j < t.len() && t[j] == '#' implies name.len() != 0 && j
        == head.len() by {
        if j < hs && namespace.len() != 0 {
            if j < namespace.len() {
                assert(namespace[j] == '#');
            } else {
                assert(head[j] == namespace_delimiter()[j - namespace.len()]);
            }
        } else if j < head.len() {
            assert(path[j - hs] == '#');
        } else if name.len() != 0 && j > head.len() {
            assert(name[j - head.len() - 1] == '#');
        }
    }
    // no `://` starts after the namespace
    let nd0 = namespace_delimiter();
    assert forall|j: int| hs <= j && occurs_at(t, nd0, j) implies false by {
        assert(t.subrange(j, j + 3)[0] == t[j]);
        assert(t.subrange(j, j + 3)[1] == t[j + 1]);
        assert(t.subrange(j, j + 3)[2] == t[j + 2]);
        assert(t[j] == ':' && t[j + 1] == '/' && t[j + 2] == '/');
        if j + 2 < head.len() {
            assert(path.subrange(j - hs, j - hs + 3) =~= nd0) by {
                assert(t[j] == path[j - hs]);
                assert(t[j + 1] == path[j + 1 - hs]);
                assert(t[j + 2] == path[j + 2 - hs]);
            }
            assert(occurs_at(path, nd0, j - hs));
        } else if j < head.len() {
            assert(name.len() != 0);
            assert(t[head.len() as int] == '#');
        } else if j == head.len() {
            assert(name.len() != 0);
        } else {
            let o = j - head.len() - 1;
            assert(name.subrange(o, o + 3) =~= nd0) by {
                assert(t[j] == name[o]);
                assert(t[j + 1] == name[o + 1]);
                assert(t[j + 2] == name[o + 2]);
            }
            assert(occurs_at(name, nd0, o));
        }
    }
    let nd = namespace_delimiter();
    let hd = name_delimiter();
    if namespace.len() != 0 {
        let d = namespace.len() as int;
        assert(t.subrange(d, d + 3) =~= nd) by {
            assert(t[d] == ':' && t[d + 1] == '/' && t[d + 2] == '/');
        }
        assert forall|j: int| d < j < t.len() - 3 + 1 implies !occurs_at(t, nd, j) by {
            if occurs_at(t, nd, j) && j < hs {
                assert(t.subrange(j, j + 3)[0] == ':');
                assert(t[j] == ':');
                assert(t[j] == '/');
            }
        }
        lemma_last_occurrence_is(t, nd, d, t.len() - 3 + 1);
    } else {
        lemma_no_occurrence(t, nd, t.len() - 3 + 1);
    }
    if name.len() != 0 {
        let h = head.len() as int;
        assert(t.subrange(h, h + 1) =~= hd);
        assert forall|j: int| h < j < t.len() - 1 + 1 implies !occurs_at(t, hd, j) by {
            if occurs_at(t, hd, j) {
                assert(t.subrange(j, j + 1)[0] == '#');
            }
        }
        lemma_last_occurrence_is(t, hd, h, t.len() - 1 + 1);
        assert(t.subrange(h + 1, t.len() as int) =~= name);
    } else {
        assert forall|j: int| 0 <= j < t.len() - 1 + 1 implies !occurs_at(t, hd, j) by {
            if occurs_at(t, hd, j) {
                assert(t.subrange(j, j + 1)[0] == '#');
            }
        }
        lemma_no_occurrence(t, hd, t.len() - 1 + 1);
    }
    if namespace.len() != 0 {
        assert(t.subrange(0, namespace.len() as int) =~= namespace);
    }
    assert(t.subrange(hs, hs + path.len()) =~= path);
    if name.len() == 0 {
        assert(t.subrange(hs, t.len() as int) =~= path);
    }
}

} // verus!
