//! Paths of `std::path`, as this crate uses them, on paths given as text.
use vstd::prelude::*;

verus! {

/// The text of `Path::with_extension(path, extension)`: the extension of the file name
/// replaced by (or extended with) `extension`.
pub uninterp spec fn path_with_extension(path: Seq<char>, extension: Seq<char>) -> Seq<char>;

/// The text of `Path::join(base, component)`: `component` appended with a separator, or
/// `component` alone where it is absolute.
pub uninterp spec fn path_join(base: Seq<char>, component: Seq<char>) -> Seq<char>;

/// The text of `Path::strip_prefix(path, base)`: the components of `path` after those of
/// `base`, if `base` is a prefix of `path` by components.
pub uninterp spec fn path_strip_prefix(path: Seq<char>, base: Seq<char>) -> Option<Seq<char>>;

/// The path that `PathBuf::from_iter` builds of the components: each pushed in turn onto the
/// empty path.
pub open spec fn path_of(components: Seq<Seq<char>>) -> Seq<char>
    decreases components.len(),
{
    if components.len() == 0 {
        Seq::empty()
    } else {
        path_join(path_of(components.drop_last()), components.last())
    }
}

/// The path of the components, each pushed in turn onto the empty path
pub fn collect_path(components: &Vec<String>) -> (r: String)
    ensures
        r@ == path_of(components@.map_values(|c: String| c@)),
{
    let ghost views = components@.map_values(|c: String| c@);
    let mut path = String::new();
    let mut i: usize = 0;
    assert(views.take(0) =~= Seq::<Seq<char>>::empty());
    while i < components.len()
        invariant
            i <= components.len(),
            views == components@.map_values(|c: String| c@),
            path@ == path_of(views.take(i as int)),
        decreases components.len() - i,
    {
        path = join(path.as_str(), components[i].as_str());
        assert(views.take(i + 1).drop_last() =~= views.take(i as int));
        i += 1;
    }
    assert(views.take(i as int) =~= views);
    path
}

/// A character that a sanitized file name cannot hold: one of `/ ? < > \\ : * | "`, or a
/// control character (U+0000 to U+001F and U+0080 to U+009F).
pub open spec fn illegal_in_file_name(c: char) -> bool {
    ||| c == '/' || c == '?' || c == '<' || c == '>' || c == '\\'
    ||| c == ':' || c == '*' || c == '|' || c == '"'
    ||| (c as u32) <= 0x1f
    ||| 0x80 <= (c as u32) && (c as u32) <= 0x9f
}

/// `name` with each illegal character replaced by `_`, and, if it is nothing but dots (`.` or
/// `..`), replaced as a whole by `_`.
pub open spec fn sanitized_file_name(name: Seq<char>) -> Seq<char> {
    let replaced = name.map_values(|c: char| if illegal_in_file_name(c) { '_' } else { c });
    if replaced.len() > 0 && forall|i: int| 0 <= i < replaced.len() ==> replaced[i] == '.' {
        seq!['_']
    } else {
        replaced
    }
}

/// `sanitize_filename::sanitize_with_options` with the options `windows: false`,
/// `truncate: false` and the replacement `_`: the crate replaces each match of its pattern of
/// illegal characters, then each match of its pattern of control characters, by `_`, and then
/// a name of dots alone by `_`.
#[verifier::external_body]
pub(crate) fn sanitize_file_name(name: &str) -> (r: String)
    ensures
        r@ == sanitized_file_name(name@),
{
    let options = sanitize_filename::Options { windows: false, truncate: false, replacement: "_" };
    sanitize_filename::sanitize_with_options(name, options)
}

/// The index of the last `c` in `s`, or -1 where `s` holds none.
pub open spec fn last_index_of(s: Seq<char>, c: char) -> int
    decreases s.len(),
{
    if s.len() == 0 {
        -1
    } else if s.last() == c {
        s.len() - 1
    } else {
        last_index_of(s.drop_last(), c)
    }
}

/// The text after the last `/` of a path: its file name where the path does not end with `/`.
pub open spec fn file_name_of(path: Seq<char>) -> Seq<char> {
    path.skip(last_index_of(path, '/') + 1)
}

/// `Path::with_extension`: it panics where the extension holds a path separator, which is `/`
/// on the systems the runner supports. For a non-empty extension and a path that does not end
/// with `/`, as `PathBuf::set_extension` documents: a file name without a `.` gets `.` and the
/// extension appended; one with a `.` after its first character (and not `..`) has the part
/// after its last `.` replaced. Other paths (a file name that starts with its only `.`, a
/// trailing `/`) and the empty extension are left to the name.
#[verifier::external_body]
pub(crate) fn with_extension(path: &str, extension: &str) -> (r: String)
    requires
        !extension@.contains('/'),
    ensures
        r@ == path_with_extension(path@, extension@),
        extension@.len() > 0 && path@.len() > 0 && path@.last() != '/'
            && !file_name_of(path@).contains('.') ==> r@ == path@ + seq!['.'] + extension@,
        extension@.len() > 0 && path@.len() > 0 && path@.last() != '/'
            && file_name_of(path@) != seq!['.', '.'] && last_index_of(file_name_of(path@), '.') > 0
            ==> r@ == path@.take(last_index_of(path@, '.')) + seq!['.'] + extension@,
{
    std::path::Path::new(path).with_extension(extension).to_string_lossy().into_owned()
}

/// `Path::join`: an absolute component (on Unix, one that starts with `/`) replaces the base;
/// a relative one is appended to a base that does not end with `/` after a `/`
#[verifier::external_body]
pub(crate) fn join(base: &str, component: &str) -> (r: String)
    ensures
        r@ == path_join(base@, component@),
        component@.len() > 0 && component@[0] == '/' ==> r@ == component@,
        component@.len() > 0 && component@[0] != '/' && base@.len() > 0 && base@.last() != '/'
            ==> r@ == base@ + seq!['/'] + component@,
{
    std::path::Path::new(base).join(component).to_string_lossy().into_owned()
}

/// `Path::strip_prefix`
#[verifier::external_body]
pub(crate) fn strip_prefix(path: &str, base: &str) -> (r: Option<String>)
    ensures
        r matches Some(s) ==> path_strip_prefix(path@, base@) == Some(s@),
        r is None ==> path_strip_prefix(path@, base@) is None,
{
    std::path::Path::new(path).strip_prefix(base).ok().map(|p| p.to_string_lossy().into_owned())
}

} // verus!
