//! File-system paths as byte strings, read the way `std::path::Path` reads
//! them on Unix: components, file names, extensions and joining.
use vstd::prelude::*;
use vstd::utf8::*;

verus! {

/// The byte `/`.
pub open spec fn slash() -> u8 {
    47
}

/// The byte `.`.
pub open spec fn dot() -> u8 {
    46
}

/// One component of a path.
#[derive(Debug, Clone, PartialEq, Eq)]
pub enum Component {
    RootDir,
    CurDir,
    ParentDir,
    Normal(Vec<u8>),
}

pub enum ComponentView {
    RootDir,
    CurDir,
    ParentDir,
    Normal(Seq<u8>),
}

impl View for Component {
    type V = ComponentView;

    open spec fn view(&self) -> ComponentView {
        match self {
            Component::RootDir => ComponentView::RootDir,
            Component::CurDir => ComponentView::CurDir,
            Component::ParentDir => ComponentView::ParentDir,
            Component::Normal(b) => ComponentView::Normal(b@),
        }
    }
}

/// The views of a sequence of components.
pub open spec fn component_views(cs: Seq<Component>) -> Seq<ComponentView> {
    cs.map_values(|c: Component| c@)
}

/// The end of the segment of `p` that starts at `i`: the next `/`, or the
/// end of `p`.
pub open spec fn segment_end(p: Seq<u8>, i: int) -> int
    decreases p.len() - i,
{
    if i >= p.len() || p[i] == slash() {
        i
    } else {
        segment_end(p, i + 1)
    }
}

/// The components of the segments of `p` from `i` on: empty segments and
/// `.` are dropped, `..` is the parent directory, anything else a name.
pub open spec fn segment_components(p: Seq<u8>, i: int) -> Seq<ComponentView>
    decreases p.len() - i,
{
    if i < 0 || i >= p.len() {
        Seq::empty()
    } else {
        let e = segment_end(p, i);
        let seg = p.subrange(i, e);
        let rest = if e < p.len() {
            proof {
                lemma_segment_end(p, i);
            }
            segment_components(p, e + 1)
        } else {
            Seq::empty()
        };
        if seg.len() == 0 || seg == seq![dot()] {
            rest
        } else if seg == seq![dot(), dot()] {
            seq![ComponentView::ParentDir] + rest
        } else {
            seq![ComponentView::Normal(seg)] + rest
        }
    }
}

/// The components of `p` (`Path::components` on Unix): the root when `p`
/// begins with `/`, the current directory when `p` is `.` or begins with
/// `./`, then its segments.
pub open spec fn path_components(p: Seq<u8>) -> Seq<ComponentView> {
    if p.len() > 0 && p[0] == slash() {
        seq![ComponentView::RootDir] + segment_components(p, 0)
    } else if p.len() > 0 && p[0] == dot() && (p.len() == 1 || p[1] == slash()) {
        seq![ComponentView::CurDir] + segment_components(p, 0)
    } else {
        segment_components(p, 0)
    }
}

/// A segment ends at a `/` or at the end of the path, and holds no `/`.
pub proof fn lemma_segment_end(p: Seq<u8>, i: int)
    requires
        0 <= i <= p.len(),
    ensures
        i <= segment_end(p, i) <= p.len(),
        segment_end(p, i) < p.len() ==> p[segment_end(p, i)] == slash(),
        forall|j: int| i <= j < segment_end(p, i) ==> p[j] != slash(),
    decreases p.len() - i,
{
    if i < p.len() && p[i] != slash() {
        lemma_segment_end(p, i + 1);
    }
}

/// The end of the segment of `p` that starts at `i`.
fn find_segment_end(p: &[u8], i: usize) -> (e: usize)
    requires
        i <= p@.len(),
    ensures
        e == segment_end(p@, i as int),
{
    let mut e = i;
    while e < p.len() && p[e] != 47
        invariant
            i <= e <= p@.len(),
            segment_end(p@, i as int) == segment_end(p@, e as int),
        decreases p@.len() - e,
    {
        e = e + 1;
    }
    e
}

/// The components of `p`, in order (see `path_components`).
pub fn components(p: &[u8]) -> (r: Vec<Component>)
    ensures
        component_views(r@) == path_components(p@),
{
    let mut r: Vec<Component> = Vec::new();
    if p.len() > 0 && p[0] == 47 {
        r.push(Component::RootDir);
    } else if p.len() > 0 && p[0] == 46 && (p.len() == 1 || p[1] == 47) {
        r.push(Component::CurDir);
    }
    let ghost lead = component_views(r@);
    let mut i: usize = 0;
    while i < p.len()
        invariant
            i <= p@.len(),
            component_views(r@) + segment_components(p@, i as int) == path_components(p@),
        decreases p@.len() - i,
    {
        let e = find_segment_end(p, i);
        proof {
            lemma_segment_end(p@, i as int);
        }
        let ghost seg = p@.subrange(i as int, e as int);
        let ghost rest = if e < p@.len() {
            segment_components(p@, e + 1)
        } else {
            Seq::<ComponentView>::empty()
        };
        let ghost before = component_views(r@);
        let len = e - i;
        if len == 0 || (len == 1 && p[i] == 46) {
            assert(len == 1 ==> seg =~= seq![dot()]);
        } else if len == 2 && p[i] == 46 && p[i + 1] == 46 {
            assert(seg =~= seq![dot(), dot()]);
            r.push(Component::ParentDir);
            assert(component_views(r@) =~= before.push(ComponentView::ParentDir));
        } else {
            assert(seg != seq![dot()]) by {
                assert(seq![dot()].len() == 1);
                assert(seq![dot()][0] == dot());
                if len == 1 {
                    assert(seg[0] == p@[i as int]);
                }
            }
            assert(seg != seq![dot(), dot()]) by {
                assert(seq![dot(), dot()].len() == 2);
                assert(seq![dot(), dot()][0] == dot());
                assert(seq![dot(), dot()][1] == dot());
                if len == 2 {
                    assert(seg[0] == p@[i as int]);
                    assert(seg[1] == p@[i + 1]);
                }
            }
            let name = vstd::slice::slice_to_vec(vstd::slice::slice_subrange(p, i, e));
            r.push(Component::Normal(name));
            assert(component_views(r@) =~= before.push(ComponentView::Normal(seg)));
        }
        if e < p.len() {
            i = e + 1;
        } else {
            i = e;
        }
        assert(segment_components(p@, i as int) == rest);
    }
    assert(segment_components(p@, i as int) =~= Seq::<ComponentView>::empty());
    r
}

} // verus!

verus! {

/// The file name of `p` (`Path::file_name`): its last component when that
/// is a name.
pub open spec fn file_name(p: Seq<u8>) -> Option<Seq<u8>> {
    let cs = path_components(p);
    if cs.len() > 0 {
        match cs.last() {
            ComponentView::Normal(n) => Some(n),
            _ => None,
        }
    } else {
        None
    }
}

/// The file name of `p`, when its last component is a name.
pub fn path_file_name(p: &[u8]) -> (r: Option<Vec<u8>>)
    ensures
        match r {
            Some(n) => file_name(p@) == Some(n@),
            None => file_name(p@) is None,
        },
{
    let cs = components(p);
    if cs.len() == 0 {
        return None;
    }
    let last = cs.len() - 1;
    assert(component_views(cs@)[last as int] == cs@[last as int]@);
    match &cs[last] {
        Component::Normal(n) => Some(vstd::slice::slice_to_vec(n.as_slice())),
        _ => None,
    }
}

/// Whether two byte strings are equal.
pub fn bytes_eq(a: &[u8], b: &[u8]) -> (r: bool)
    ensures
        r == (a@ == b@),
{
    if a.len() != b.len() {
        return false;
    }
    let mut i: usize = 0;
    while i < a.len()
        invariant
            i <= a@.len() == b@.len(),
            forall|j: int| 0 <= j < i ==> a@[j] == b@[j],
        decreases a@.len() - i,
    {
        if a[i] != b[i] {
            return false;
        }
        i = i + 1;
    }
    assert(a@ =~= b@);
    true
}

/// Whether two paths are equal (`Path`'s `==`): they have the same
/// components, so `a//b`, `a/./b` and `a/b/` all equal `a/b`.
pub open spec fn same_path(a: Seq<u8>, b: Seq<u8>) -> bool {
    path_components(a) == path_components(b)
}

/// Whether two paths have the same components.
pub fn paths_equal(a: &[u8], b: &[u8]) -> (r: bool)
    ensures
        r == same_path(a@, b@),
{
    let ca = components(a);
    let cb = components(b);
    let ghost va = component_views(ca@);
    let ghost vb = component_views(cb@);
    if ca.len() != cb.len() {
        assert(va.len() != vb.len());
        return false;
    }
    let mut i: usize = 0;
    while i < ca.len()
        invariant
            i <= ca@.len() == cb@.len(),
            va == component_views(ca@),
            vb == component_views(cb@),
            va == path_components(a@),
            vb == path_components(b@),
            forall|j: int| 0 <= j < i ==> va[j] == vb[j],
        decreases ca@.len() - i,
    {
        assert(va[i as int] == ca@[i as int]@);
        assert(vb[i as int] == cb@[i as int]@);
        let same = match (&ca[i], &cb[i]) {
            (Component::RootDir, Component::RootDir) => true,
            (Component::CurDir, Component::CurDir) => true,
            (Component::ParentDir, Component::ParentDir) => true,
            (Component::Normal(x), Component::Normal(y)) => bytes_eq(x.as_slice(), y.as_slice()),
            _ => false,
        };
        if !same {
            assert(va[i as int] != vb[i as int]);
            return false;
        }
        i = i + 1;
    }
    assert(va =~= vb);
    true
}

/// The position of the last `.` in `name`.
pub open spec fn last_dot(name: Seq<u8>) -> Option<int>
    decreases name.len(),
{
    if name.len() == 0 {
        None
    } else if name.last() == dot() {
        Some(name.len() - 1)
    } else {
        last_dot(name.drop_last())
    }
}

/// The extension of a file name (as `Path::extension` takes it): what
/// follows the last `.`, unless there is none or the only `.` opens the
/// name.
pub open spec fn name_extension(name: Seq<u8>) -> Option<Seq<u8>> {
    match last_dot(name) {
        Some(k) => if k > 0 {
            Some(name.skip(k + 1))
        } else {
            None
        },
        None => None,
    }
}

/// The extension of a path's file name.
pub open spec fn path_extension(p: Seq<u8>) -> Option<Seq<u8>> {
    match file_name(p) {
        Some(n) => name_extension(n),
        None => None,
    }
}

/// The extension of a path's file name (see `path_extension`).
pub fn extension(p: &[u8]) -> (r: Option<Vec<u8>>)
    ensures
        match r {
            Some(e) => path_extension(p@) == Some(e@),
            None => path_extension(p@) is None,
        },
{
    let name = match path_file_name(p) {
        Some(n) => n,
        None => return None,
    };
    let mut k = name.len();
    assert(name@.take(k as int) == name@);
    while k > 0 && name[k - 1] != 46
        invariant
            k <= name@.len(),
            last_dot(name@) == last_dot(name@.take(k as int)),
        decreases k,
    {
        assert(name@.take(k as int).drop_last() == name@.take(k - 1));
        k = k - 1;
    }
    if k == 0 {
        assert(name@.take(0) =~= Seq::<u8>::empty());
        return None;
    }
    assert(name@.take(k as int).last() == dot());
    if k == 1 {
        return None;
    }
    Some(vstd::slice::slice_to_vec(vstd::slice::slice_subrange(name.as_slice(), k, name.len())))
}

/// A byte with ASCII upper-case letters made lower-case.
pub open spec fn ascii_lower_byte(b: u8) -> u8 {
    if 65 <= b <= 90 {
        (b + 32) as u8
    } else {
        b
    }
}

/// `bytes` with ASCII upper-case letters made lower-case
/// (`to_ascii_lowercase`).
pub open spec fn ascii_lower(bytes: Seq<u8>) -> Seq<u8> {
    bytes.map_values(|b: u8| ascii_lower_byte(b))
}

pub fn to_ascii_lower(bytes: &[u8]) -> (r: Vec<u8>)
    ensures
        r@ == ascii_lower(bytes@),
{
    let mut r: Vec<u8> = Vec::new();
    let mut i: usize = 0;
    while i < bytes.len()
        invariant
            i <= bytes@.len(),
            r@ == ascii_lower(bytes@.take(i as int)),
        decreases bytes@.len() - i,
    {
        let b = bytes[i];
        let l = if 65 <= b && b <= 90 {
            b + 32
        } else {
            b
        };
        r.push(l);
        assert(ascii_lower(bytes@.take(i + 1)) =~= ascii_lower(bytes@.take(i as int)).push(l));
        i = i + 1;
    }
    assert(bytes@.take(bytes@.len() as int) == bytes@);
    r
}

/// Whether `bytes` are exactly the UTF-8 bytes of `lit`.
pub fn bytes_eq_str(bytes: &[u8], lit: &str) -> (r: bool)
    ensures
        r == (bytes@ == encode_utf8(lit@)),
{
    bytes_eq(bytes, lit.as_bytes())
}

/// The content type of an image whose lower-cased extension is `ext`.
pub open spec fn image_type_for(ext: Seq<u8>) -> Option<&'static str> {
    if ext == encode_utf8("apng"@) {
        Some("image/apng")
    } else if ext == encode_utf8("png"@) {
        Some("image/png")
    } else if ext == encode_utf8("jpg"@) || ext == encode_utf8("jpeg"@) || ext == encode_utf8(
        "jfif"@,
    ) || ext == encode_utf8("pjpeg"@) || ext == encode_utf8("pjp"@) {
        Some("image/jpeg")
    } else if ext == encode_utf8("gif"@) {
        Some("image/gif")
    } else if ext == encode_utf8("svg"@) {
        Some("image/svg+xml")
    } else if ext == encode_utf8("webp"@) {
        Some("image/webp")
    } else if ext == encode_utf8("avif"@) {
        Some("image/avif")
    } else {
        None
    }
}

/// The content type a path is served with when it names an image: chosen by
/// its extension, in any case.
pub open spec fn image_type(p: Seq<u8>) -> Option<&'static str> {
    match path_extension(p) {
        Some(e) => image_type_for(ascii_lower(e)),
        None => None,
    }
}

/// The content type of the image that `path` names, if its extension is one
/// of an image type the viewer serves.
pub fn image_content_type(path: &[u8]) -> (r: Option<&'static str>)
    ensures
        r == image_type(path@),
{
    let ext = match extension(path) {
        Some(e) => e,
        None => return None,
    };
    let e = to_ascii_lower(ext.as_slice());
    let e = e.as_slice();
    if bytes_eq_str(e, "apng") {
        Some("image/apng")
    } else if bytes_eq_str(e, "png") {
        Some("image/png")
    } else if bytes_eq_str(e, "jpg") || bytes_eq_str(e, "jpeg") || bytes_eq_str(e, "jfif")
        || bytes_eq_str(e, "pjpeg") || bytes_eq_str(e, "pjp") {
        Some("image/jpeg")
    } else if bytes_eq_str(e, "gif") {
        Some("image/gif")
    } else if bytes_eq_str(e, "svg") {
        Some("image/svg+xml")
    } else if bytes_eq_str(e, "webp") {
        Some("image/webp")
    } else if bytes_eq_str(e, "avif") {
        Some("image/avif")
    } else {
        None
    }
}

/// Whether a path names a Markdown file: its extension is `md`, `markdown`
/// or `mdown`, in any case.
pub open spec fn markdown_path(p: Seq<u8>) -> bool {
    match path_extension(p) {
        Some(e) => {
            let l = ascii_lower(e);
            l == encode_utf8("md"@) || l == encode_utf8("markdown"@) || l == encode_utf8("mdown"@)
        },
        None => false,
    }
}

/// Whether `path` names a Markdown file (see `markdown_path`).
pub fn is_markdown_path(path: &[u8]) -> (r: bool)
    ensures
        r == markdown_path(path@),
{
    match extension(path) {
        Some(e) => {
            let l = to_ascii_lower(e.as_slice());
            bytes_eq_str(l.as_slice(), "md") || bytes_eq_str(l.as_slice(), "markdown")
                || bytes_eq_str(l.as_slice(), "mdown")
        },
        None => false,
    }
}

/// Why a file is not shown.
#[derive(Debug, Clone, Copy, PartialEq, Eq)]
pub enum ViewRefusal {
    /// The path does not name a regular file.
    NotAFile,
    /// The file is not a Markdown file.
    NotMarkdown,
}

impl ViewRefusal {
    pub open spec fn message_spec(self) -> Seq<char> {
        match self {
            ViewRefusal::NotAFile => "not a file"@,
            ViewRefusal::NotMarkdown => "only Markdown files can be viewed"@,
        }
    }

    /// The text the refusal is reported with.
    pub fn message(&self) -> (r: String)
        ensures
            r@ == self.message_spec(),
    {
        match self {
            ViewRefusal::NotAFile => String::from_str("not a file"),
            ViewRefusal::NotMarkdown => String::from_str("only Markdown files can be viewed"),
        }
    }
}

/// Whether the file at the canonical path `canonical` may be shown, given
/// whether that path names a regular file: it must, and it must be a
/// Markdown file.
pub fn check_viewable(canonical: &[u8], is_file: bool) -> (r: Result<(), ViewRefusal>)
    ensures
        r == (if !is_file {
            Err::<(), ViewRefusal>(ViewRefusal::NotAFile)
        } else if !markdown_path(canonical@) {
            Err(ViewRefusal::NotMarkdown)
        } else {
            Ok(())
        }),
{
    if !is_file {
        Err(ViewRefusal::NotAFile)
    } else if !is_markdown_path(canonical) {
        Err(ViewRefusal::NotMarkdown)
    } else {
        Ok(())
    }
}

} // verus!

verus! {

/// `base` joined with the relative path `name` (`Path::join`): a `/` goes
/// between them unless `base` is empty or already ends in `/`.
pub open spec fn join(base: Seq<u8>, name: Seq<u8>) -> Seq<u8> {
    if base.len() > 0 && base.last() != slash() {
        base + seq![slash()] + name
    } else {
        base + name
    }
}

/// Joins `base` with the relative path `name`.
pub fn join_path(base: &[u8], name: &str) -> (r: Vec<u8>)
    ensures
        r@ == join(base@, encode_utf8(name@)),
{
    let mut r = vstd::slice::slice_to_vec(base);
    if base.len() > 0 && base[base.len() - 1] != 47 {
        r.push(47);
    }
    let n = name.as_bytes();
    let mut i: usize = 0;
    let ghost start = r@;
    while i < n.len()
        invariant
            i <= n@.len(),
            r@ == start + n@.take(i as int),
        decreases n@.len() - i,
    {
        r.push(n[i]);
        assert(n@.take(i + 1) == n@.take(i as int).push(n@[i as int]));
        i = i + 1;
    }
    assert(n@.take(n@.len() as int) == n@);
    r
}

/// Where the daemon records its process id, in the configuration directory.
pub fn pid_path(config_dir: &[u8]) -> (r: Vec<u8>)
    ensures
        r@ == join(config_dir@, encode_utf8("daemon.pid"@)),
{
    join_path(config_dir, "daemon.pid")
}

/// Where the daemon records its port, in the configuration directory.
pub fn port_path(config_dir: &[u8]) -> (r: Vec<u8>)
    ensures
        r@ == join(config_dir@, encode_utf8("daemon.port"@)),
{
    join_path(config_dir, "daemon.port")
}

/// Where the history of opened files is kept, in the configuration
/// directory.
pub fn history_path(config_dir: &[u8]) -> (r: Vec<u8>)
    ensures
        r@ == join(config_dir@, encode_utf8("history.json"@)),
{
    join_path(config_dir, "history.json")
}

/// Where the history is written before it replaces the old one.
pub fn history_temp_path(config_dir: &[u8]) -> (r: Vec<u8>)
    ensures
        r@ == join(config_dir@, encode_utf8("history.json.tmp"@)),
{
    join_path(config_dir, "history.json.tmp")
}

/// The configuration directory: `mdv` under `$XDG_CONFIG_HOME` when that is
/// set, else under `.config` in the home directory; nothing when neither is
/// known.
pub open spec fn config_dir_of(xdg_config_home: Option<Seq<u8>>, home: Option<Seq<u8>>) -> Option<
    Seq<u8>,
> {
    let base = match xdg_config_home {
        Some(x) => Some(x),
        None => match home {
            Some(h) => Some(join(h, encode_utf8(".config"@))),
            None => None,
        },
    };
    match base {
        Some(b) => Some(join(b, encode_utf8("mdv"@))),
        None => None,
    }
}

/// The configuration directory (see `config_dir_of`).
pub fn config_dir(xdg_config_home: Option<Vec<u8>>, home: Option<Vec<u8>>) -> (r: Option<Vec<u8>>)
    ensures
        match r {
            Some(d) => config_dir_of(
                match xdg_config_home {
                    Some(x) => Some(x@),
                    None => None,
                },
                match home {
                    Some(h) => Some(h@),
                    None => None,
                },
            ) == Some(d@),
            None => xdg_config_home is None && home is None,
        },
{
    let base = match xdg_config_home {
        Some(x) => x,
        None => match home {
            Some(h) => join_path(h.as_slice(), ".config"),
            None => return None,
        },
    };
    Some(join_path(base.as_slice(), "mdv"))
}

} // verus!

verus! {

/// A plain file name: not empty, no `/`, neither `.` nor `..`.
pub open spec fn plain_name(n: Seq<u8>) -> bool {
    &&& n.len() > 0
    &&& forall|j: int| 0 <= j < n.len() ==> #[trigger] n[j] != slash()
    &&& n != seq![dot()]
    &&& n != seq![dot(), dot()]
}

proof fn lemma_segment_end_prefix(p: Seq<u8>, q: Seq<u8>, i: int)
    requires
        0 <= i <= p.len() <= q.len(),
        forall|j: int| 0 <= j < p.len() ==> #[trigger] q[j] == p[j],
        segment_end(p, i) < p.len() || (q.len() > p.len() && q[p.len() as int] == slash()),
    ensures
        segment_end(q, i) == segment_end(p, i),
    decreases p.len() - i,
{
    if i < p.len() && p[i] != slash() {
        lemma_segment_end_prefix(p, q, i + 1);
    }
}

proof fn lemma_segment_end_in_name(q: Seq<u8>, i: int)
    requires
        0 <= i <= q.len(),
        forall|j: int| i <= j < q.len() ==> #[trigger] q[j] != slash(),
    ensures
        segment_end(q, i) == q.len(),
    decreases q.len() - i,
{
    if i < q.len() {
        lemma_segment_end_in_name(q, i + 1);
    }
}

proof fn lemma_segments_trailing_slash(d: Seq<u8>, i: int)
    requires
        0 <= i <= d.len(),
    ensures
        segment_components(d + seq![slash()], i) == segment_components(d, i),
    decreases d.len() - i,
{
    let q = d + seq![slash()];
    lemma_segment_end(d, i);
    if i == d.len() {
        assert(segment_end(q, i) == i);
        assert(q.subrange(i, i).len() == 0);
        assert(segment_components(q, i + 1) == Seq::<ComponentView>::empty());
    } else {
        lemma_segment_end_prefix(d, q, i);
        let e = segment_end(d, i);
        assert(q.subrange(i, e) =~= d.subrange(i, e));
        if e < d.len() {
            lemma_segments_trailing_slash(d, e + 1);
        } else {
            assert(segment_components(q, e + 1) == Seq::<ComponentView>::empty());
        }
    }
}

proof fn lemma_segments_add_name(d: Seq<u8>, n: Seq<u8>, i: int)
    requires
        0 <= i <= d.len(),
        d.len() == 0 || d.last() == slash(),
        plain_name(n),
    ensures
        segment_components(d + n, i) == segment_components(d, i) + seq![ComponentView::Normal(n)],
    decreases d.len() - i,
{
    let q = d + n;
    if i == d.len() {
        assert forall|j: int| i <= j < q.len() implies #[trigger] q[j] != slash() by {
            assert(q[j] == n[j - d.len()]);
        }
        lemma_segment_end_in_name(q, i);
        assert(q.subrange(i, q.len() as int) =~= n);
        assert(segment_components(d, i) + seq![ComponentView::Normal(n)] =~= seq![
            ComponentView::Normal(n),
        ]);
    } else {
        lemma_segment_end(d, i);
        let e = segment_end(d, i);
        if e == d.len() {
            assert(d[d.len() - 1] == d.last());
        }
        assert(e < d.len());
        lemma_segment_end_prefix(d, q, i);
        assert(q.subrange(i, e) =~= d.subrange(i, e));
        lemma_segments_add_name(d, n, e + 1);
        let rest_d = segment_components(d, e + 1);
        let seg = d.subrange(i, e);
        if seg.len() == 0 || seg == seq![dot()] {
        } else if seg == seq![dot(), dot()] {
            assert(seq![ComponentView::ParentDir] + (rest_d + seq![ComponentView::Normal(n)])
                =~= (seq![ComponentView::ParentDir] + rest_d) + seq![ComponentView::Normal(n)]);
        } else {
            assert(seq![ComponentView::Normal(seg)] + (rest_d + seq![ComponentView::Normal(n)])
                =~= (seq![ComponentView::Normal(seg)] + rest_d) + seq![ComponentView::Normal(n)]);
        }
    }
}

/// The path of a plain name joined to a directory has the directory's
/// components followed by the name: the directory is the file's parent.
pub proof fn lemma_join_components(d: Seq<u8>, n: Seq<u8>)
    requires
        plain_name(n),
    ensures
        path_components(join(d, n)) == path_components(d).push(ComponentView::Normal(n)),
{
    let q = join(d, n);
    assert(n[0] != slash());
    if d.len() == 0 {
        assert(q =~= d + n);
        lemma_segments_add_name(d, n, 0);
        if n[0] == dot() && n.len() == 1 {
            assert(n =~= seq![dot()]);
        }
        assert(segment_components(d, 0) == Seq::<ComponentView>::empty());
        assert(path_components(d) == Seq::<ComponentView>::empty());
    } else if d.last() == slash() {
        assert(q == d + n);
        lemma_segments_add_name(d, n, 0);
        assert(q[0] == d[0]);
        if d.len() >= 2 {
            assert(q[1] == d[1]);
        } else {
            assert(d[0] == d.last());
        }
    } else {
        let dd = d + seq![slash()];
        assert(q == dd + n);
        assert(dd.last() == slash());
        lemma_segments_add_name(dd, n, 0);
        lemma_segments_trailing_slash(d, 0);
        assert(q[0] == d[0]);
        if d.len() >= 2 {
            assert(q[1] == d[1]);
        } else {
            assert(q[1] == slash());
        }
    }
}

} // verus!

verus! {

proof fn lemma_ascii_name(s: Seq<char>)
    requires
        is_ascii_chars(s),
        s.len() > 2,
        forall|j: int| 0 <= j < s.len() ==> #[trigger] s[j] != '/',
    ensures
        plain_name(encode_utf8(s)),
        encode_utf8(s).len() == s.len(),
{
    is_ascii_chars_encode_utf8(s);
    let b = encode_utf8(s);
    assert forall|j: int| 0 <= j < b.len() implies #[trigger] b[j] != slash() by {
        assert(s[j] as u8 == b[j]);
        assert(s[j] != '/');
    }
    assert(b.len() != seq![dot()].len());
    assert(b.len() != seq![dot(), dot()].len());
}

/// The daemon's PID file, port file and history file are each a file
/// directly in the configuration directory, and no two of them are the same
/// path.
pub proof fn lemma_config_files(d: Seq<u8>)
    ensures
        path_components(join(d, encode_utf8("daemon.pid"@))) == path_components(d).push(
            ComponentView::Normal(encode_utf8("daemon.pid"@)),
        ),
        path_components(join(d, encode_utf8("daemon.port"@))) == path_components(d).push(
            ComponentView::Normal(encode_utf8("daemon.port"@)),
        ),
        path_components(join(d, encode_utf8("history.json"@))) == path_components(d).push(
            ComponentView::Normal(encode_utf8("history.json"@)),
        ),
        !same_path(join(d, encode_utf8("daemon.pid"@)), join(d, encode_utf8("daemon.port"@))),
        !same_path(join(d, encode_utf8("daemon.pid"@)), join(d, encode_utf8("history.json"@))),
        !same_path(join(d, encode_utf8("daemon.port"@)), join(d, encode_utf8("history.json"@))),
{
    reveal_strlit("daemon.pid");
    reveal_strlit("daemon.port");
    reveal_strlit("history.json");
    let pid = encode_utf8("daemon.pid"@);
    let port = encode_utf8("daemon.port"@);
    let hist = encode_utf8("history.json"@);
    lemma_ascii_name("daemon.pid"@);
    lemma_ascii_name("daemon.port"@);
    lemma_ascii_name("history.json"@);
    lemma_join_components(d, pid);
    lemma_join_components(d, port);
    lemma_join_components(d, hist);
    let c = path_components(d);
    assert(c.push(ComponentView::Normal(pid)).last() == ComponentView::Normal(pid));
    assert(c.push(ComponentView::Normal(port)).last() == ComponentView::Normal(port));
    assert(c.push(ComponentView::Normal(hist)).last() == ComponentView::Normal(hist));
    assert(pid.len() != port.len() && pid.len() != hist.len() && port.len() != hist.len());
}

} // verus!

verus! {

/// Whether a lower-cased extension is one of a JPEG image.
pub open spec fn jpeg_extension(l: Seq<u8>) -> bool {
    l == encode_utf8("jpg"@) || l == encode_utf8("jpeg"@) || l == encode_utf8("jfif"@) || l
        == encode_utf8("pjpeg"@) || l == encode_utf8("pjp"@)
}

/// The bytes of an ASCII literal are its characters' codes.
proof fn lemma_ascii_literal_bytes(s: Seq<char>, b: Seq<u8>)
    requires
        s.len() == b.len(),
        forall|i: int| 0 <= i < s.len() ==> #[trigger] b[i] == s[i] as u8,
        is_ascii_chars(s),
    ensures
        encode_utf8(s) == b,
{
    is_ascii_chars_encode_utf8(s);
    assert(encode_utf8(s) =~= b);
}

/// Each image extension, in any ASCII case, gives its content type:
/// `apng`, `png`, `gif`, `svg`, `webp` and `avif` their own, and the JPEG
/// extensions `image/jpeg`.
pub proof fn lemma_image_types(p: Seq<u8>)
    ensures
        (path_extension(p) matches Some(e) && ascii_lower(e) == encode_utf8("apng"@)) ==> image_type(p)
            == Some("image/apng"),
        (path_extension(p) matches Some(e) && ascii_lower(e) == encode_utf8("png"@)) ==> image_type(p)
            == Some("image/png"),
        (path_extension(p) matches Some(e) && ascii_lower(e) == encode_utf8("gif"@)) ==> image_type(p)
            == Some("image/gif"),
        (path_extension(p) matches Some(e) && ascii_lower(e) == encode_utf8("svg"@)) ==> image_type(p)
            == Some("image/svg+xml"),
        (path_extension(p) matches Some(e) && ascii_lower(e) == encode_utf8("webp"@)) ==> image_type(p)
            == Some("image/webp"),
        (path_extension(p) matches Some(e) && ascii_lower(e) == encode_utf8("avif"@)) ==> image_type(p)
            == Some("image/avif"),
        (path_extension(p) matches Some(e) && jpeg_extension(ascii_lower(e))) ==> image_type(p)
            == Some("image/jpeg"),
{
    reveal_strlit("apng");
    lemma_ascii_literal_bytes("apng"@, seq![97u8, 112u8, 110u8, 103u8]);
    reveal_strlit("png");
    lemma_ascii_literal_bytes("png"@, seq![112u8, 110u8, 103u8]);
    reveal_strlit("jpg");
    lemma_ascii_literal_bytes("jpg"@, seq![106u8, 112u8, 103u8]);
    reveal_strlit("jpeg");
    lemma_ascii_literal_bytes("jpeg"@, seq![106u8, 112u8, 101u8, 103u8]);
    reveal_strlit("jfif");
    lemma_ascii_literal_bytes("jfif"@, seq![106u8, 102u8, 105u8, 102u8]);
    reveal_strlit("pjpeg");
    lemma_ascii_literal_bytes("pjpeg"@, seq![112u8, 106u8, 112u8, 101u8, 103u8]);
    reveal_strlit("pjp");
    lemma_ascii_literal_bytes("pjp"@, seq![112u8, 106u8, 112u8]);
    reveal_strlit("gif");
    lemma_ascii_literal_bytes("gif"@, seq![103u8, 105u8, 102u8]);
    reveal_strlit("svg");
    lemma_ascii_literal_bytes("svg"@, seq![115u8, 118u8, 103u8]);
    reveal_strlit("webp");
    lemma_ascii_literal_bytes("webp"@, seq![119u8, 101u8, 98u8, 112u8]);
    reveal_strlit("avif");
    lemma_ascii_literal_bytes("avif"@, seq![97u8, 118u8, 105u8, 102u8]);
}

/// A path is served as `image/jpeg` exactly when its extension is `jpg`,
/// `jpeg`, `jfif`, `pjpeg` or `pjp`, in any ASCII case.
pub proof fn lemma_jpeg_images(p: Seq<u8>)
    ensures
        (path_extension(p) matches Some(e) && jpeg_extension(ascii_lower(e))) <==> image_type(p)
            == Some("image/jpeg"),
{
    reveal_strlit("apng");
    reveal_strlit("png");
    reveal_strlit("jpg");
    reveal_strlit("jpeg");
    reveal_strlit("jfif");
    reveal_strlit("pjpeg");
    reveal_strlit("pjp");
    reveal_strlit("gif");
    reveal_strlit("svg");
    reveal_strlit("webp");
    reveal_strlit("avif");
    lemma_ascii_literal_bytes("apng"@, seq![97u8, 112u8, 110u8, 103u8]);
    lemma_ascii_literal_bytes("png"@, seq![112u8, 110u8, 103u8]);
    lemma_ascii_literal_bytes("jpg"@, seq![106u8, 112u8, 103u8]);
    lemma_ascii_literal_bytes("jpeg"@, seq![106u8, 112u8, 101u8, 103u8]);
    lemma_ascii_literal_bytes("jfif"@, seq![106u8, 102u8, 105u8, 102u8]);
    lemma_ascii_literal_bytes("pjpeg"@, seq![112u8, 106u8, 112u8, 101u8, 103u8]);
    lemma_ascii_literal_bytes("pjp"@, seq![112u8, 106u8, 112u8]);
    lemma_ascii_literal_bytes("gif"@, seq![103u8, 105u8, 102u8]);
    lemma_ascii_literal_bytes("svg"@, seq![115u8, 118u8, 103u8]);
    lemma_ascii_literal_bytes("webp"@, seq![119u8, 101u8, 98u8, 112u8]);
    lemma_ascii_literal_bytes("avif"@, seq![97u8, 118u8, 105u8, 102u8]);
    reveal_strlit("image/jpeg");
    assert("image/jpeg"@[6] == 'j' && "image/jpeg"@.len() == 10);
    reveal_strlit("image/apng");
    assert("image/apng"@[6] != 'j' || "image/apng"@.len() != 10);
    reveal_strlit("image/png");
    assert("image/png"@[6] != 'j' || "image/png"@.len() != 10);
    reveal_strlit("image/gif");
    assert("image/gif"@[6] != 'j' || "image/gif"@.len() != 10);
    reveal_strlit("image/svg+xml");
    assert("image/svg+xml"@[6] != 'j' || "image/svg+xml"@.len() != 10);
    reveal_strlit("image/webp");
    assert("image/webp"@[6] != 'j' || "image/webp"@.len() != 10);
    reveal_strlit("image/avif");
    assert("image/avif"@[6] != 'j' || "image/avif"@.len() != 10);
}

} // verus!
