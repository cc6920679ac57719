//! Path literals are resolved when they are parsed: against the home
//! directory, left as they are, or against a root directory. Paths are texts
//! with `/` as the separator; nothing is normalised and nothing is looked up.

use vstd::prelude::*;
use vstd::string::StringExecFns;

use crate::text::chars_of;

verus! {

/// A path that starts at the root of the file system.
pub open spec fn is_absolute(path: Seq<char>) -> bool {
    path.len() > 0 && path[0] == '/'
}

/// `rel` taken from `base`: an absolute `rel` stands for itself, and
/// otherwise it is appended to `base`, after a separator where `base` is not
/// empty and does not end in one.
pub open spec fn join(base: Seq<char>, rel: Seq<char>) -> Seq<char> {
    if is_absolute(rel) {
        rel
    } else if base.len() == 0 || base.last() == '/' {
        base + rel
    } else {
        base + seq!['/'] + rel
    }
}

/// Whether a path literal asks for the home directory.
pub open spec fn is_home_relative(text: Seq<char>) -> bool {
    text.len() >= 2 && text[0] == '~' && text[1] == '/'
}

/// What a path literal resolves to: `~/rest` is `rest` taken from the home
/// directory, an absolute path is itself, and every other path, a
/// home-relative one with a relative home too, is taken from `root`. `None`
/// where the home directory is asked for and not known.
pub open spec fn resolve(text: Seq<char>, root: Seq<char>, home: Option<Seq<char>>) -> Option<
    Seq<char>,
> {
    if is_home_relative(text) {
        match home {
            Some(h) => Some(join(root, join(h, text.skip(2)))),
            None => None,
        }
    } else {
        Some(join(root, text))
    }
}

/// Whether `path` starts with `/`.
pub fn path_is_absolute(path: &str) -> (b: bool)
    ensures
        b == is_absolute(path@),
{
    path.unicode_len() > 0 && path.get_char(0) == '/'
}

/// Joins two paths.
pub fn join_paths(base: &str, rel: &str) -> (r: String)
    ensures
        r@ == join(base@, rel@),
{
    if path_is_absolute(rel) {
        return String::from_str(rel);
    }
    let n = base.unicode_len();
    let mut out = String::from_str(base);
    if n > 0 && base.get_char(n - 1) != '/' {
        proof {
            reveal_strlit("/");
            assert("/"@ =~= seq!['/']);
        }
        out.append("/");
    }
    out.append(rel);
    out
}

/// Resolves the text of a path literal.
pub fn resolve_path(text: &str, root: &str, home: Option<&str>) -> (r: Option<String>)
    ensures
        match r {
            Some(p) => resolve(text@, root@, view_opt(home)) == Some(p@),
            None => resolve(text@, root@, view_opt(home)) is None,
        },
{
    let n = text.unicode_len();
    if n >= 2 && text.get_char(0) == '~' && text.get_char(1) == '/' {
        match home {
            Some(h) => {
                let rest = text.substring_char(2, n);
                assert(rest@ =~= text@.skip(2));
                let from_home = join_paths(h, rest);
                Some(join_paths(root, from_home.as_str()))
            },
            None => None,
        }
    } else {
        Some(join_paths(root, text))
    }
}

/// The view of an optional text.
pub open spec fn view_opt(text: Option<&str>) -> Option<Seq<char>> {
    match text {
        Some(t) => Some(t@),
        None => None,
    }
}

/// Where the piece of `s` that holds position `from` ends: at the next
/// separator, or at the end of `s`.
pub open spec fn piece_end(s: Seq<char>, from: int) -> int
    decreases s.len() - from,
{
    if from < 0 || from >= s.len() {
        s.len() as int
    } else if s[from] == '/' {
        from
    } else {
        piece_end(s, from + 1)
    }
}

/// A piece between two separators that names nothing: an empty one, or `.`.
pub open spec fn is_idle(piece: Seq<char>) -> bool {
    piece.len() == 0 || piece == seq!['.']
}

/// The names along `s` from position `pos` on: its pieces but the idle ones.
pub open spec fn names_from(s: Seq<char>, pos: int) -> Seq<Seq<char>>
    decreases s.len() - pos,
{
    if pos < 0 || pos >= s.len() {
        Seq::empty()
    } else {
        let end = piece_end(s, pos);
        let rest = if pos <= end < s.len() {
            names_from(s, end + 1)
        } else {
            Seq::empty()
        };
        if is_idle(s.subrange(pos, end)) {
            rest
        } else {
            seq![s.subrange(pos, end)] + rest
        }
    }
}

/// What a path names, apart from how it is spelled.
pub ghost struct PathKey {
    /// It starts at the root of the file system.
    pub rooted: bool,
    /// It does not, and its first piece is `.`.
    pub dotted: bool,
    /// Its names, `..` among them, in order.
    pub names: Seq<Seq<char>>,
}

/// The key of the path spelled `s`.
pub open spec fn path_key(s: Seq<char>) -> PathKey {
    PathKey {
        rooted: is_absolute(s),
        dotted: !is_absolute(s) && s.subrange(0, piece_end(s, 0)) == seq!['.'],
        names: names_from(s, 0),
    }
}

/// Two spellings of one path: a repeated or trailing separator and a `.`
/// after the first piece make no difference; `..` does, and so does a `.`
/// in front of a relative path.
pub open spec fn same_path(a: Seq<char>, b: Seq<char>) -> bool {
    path_key(a) == path_key(b)
}

/// A piece ends between its start and the end of the text.
pub proof fn lemma_piece_end_bounds(s: Seq<char>, from: int)
    requires
        0 <= from <= s.len(),
    ensures
        from <= piece_end(s, from) <= s.len(),
        forall|i: int| from <= i < piece_end(s, from) ==> s[i] != '/',
        piece_end(s, from) < s.len() ==> s[piece_end(s, from)] == '/',
    decreases s.len() - from,
{
    if from < s.len() && s[from] != '/' {
        lemma_piece_end_bounds(s, from + 1);
    }
}

/// A piece that starts in a text ending in a separator ends in that text,
/// whatever follows the text.
pub proof fn lemma_piece_end_in_prefix(x: Seq<char>, y: Seq<char>, pos: int)
    requires
        0 <= pos < x.len(),
        x.last() == '/',
    ensures
        piece_end(x + y, pos) == piece_end(x, pos),
        pos <= piece_end(x, pos) < x.len(),
    decreases x.len() - pos,
{
    assert((x + y)[pos] == x[pos]);
    if x[pos] != '/' {
        lemma_piece_end_in_prefix(x, y, pos + 1);
    }
}

/// A piece of `y` ends where it ends in `y`, however much text stands in
/// front.
pub proof fn lemma_piece_end_shift(x: Seq<char>, y: Seq<char>, k: int)
    requires
        0 <= k <= y.len(),
    ensures
        piece_end(x + y, x.len() + k) == x.len() + piece_end(y, k),
    decreases y.len() - k,
{
    if k < y.len() {
        assert((x + y)[x.len() + k] == y[k]);
        if y[k] != '/' {
            lemma_piece_end_shift(x, y, k + 1);
        }
    }
}

/// The names of `y` are its names, however much text stands in front.
pub proof fn lemma_names_shift(x: Seq<char>, y: Seq<char>, k: int)
    requires
        0 <= k <= y.len(),
    ensures
        names_from(x + y, x.len() + k) == names_from(y, k),
    decreases y.len() - k,
{
    if k < y.len() {
        lemma_piece_end_shift(x, y, k);
        lemma_piece_end_bounds(y, k);
        let end = piece_end(y, k);
        assert((x + y).subrange(x.len() + k, x.len() + end) =~= y.subrange(k, end));
        if end < y.len() {
            lemma_names_shift(x, y, end + 1);
        }
    }
}

/// The names of a text that ends in a separator, followed by another text,
/// are the names of the one and then the names of the other.
pub proof fn lemma_names_concat(x: Seq<char>, y: Seq<char>, pos: int)
    requires
        0 <= pos <= x.len(),
        x.len() > 0,
        x.last() == '/',
    ensures
        names_from(x + y, pos) == names_from(x, pos) + names_from(y, 0),
    decreases x.len() - pos,
{
    if pos == x.len() {
        lemma_names_shift(x, y, 0);
        assert(names_from(x, pos) + names_from(y, 0) =~= names_from(y, 0));
    } else {
        lemma_piece_end_in_prefix(x, y, pos);
        let end = piece_end(x, pos);
        assert((x + y).subrange(pos, end) =~= x.subrange(pos, end));
        lemma_names_concat(x, y, end + 1);
        let piece = x.subrange(pos, end);
        assert((seq![piece] + names_from(x, end + 1)) + names_from(y, 0) =~= seq![piece] + (
        names_from(x, end + 1) + names_from(y, 0)));
    }
}

/// The texts that a vector of pieces holds.
pub open spec fn pieces_view(pieces: Seq<Vec<char>>) -> Seq<Seq<char>> {
    Seq::new(pieces.len(), |i: int| pieces[i]@)
}

/// The names along `chars`.
pub fn path_names(chars: &Vec<char>) -> (names: Vec<Vec<char>>)
    ensures
        pieces_view(names@) == names_from(chars@, 0),
{
    let n = chars.len();
    let mut names: Vec<Vec<char>> = Vec::new();
    let mut pos: usize = 0;
    assert(pieces_view(names@) + names_from(chars@, 0) =~= names_from(chars@, 0));
    while pos < n
        invariant
            n == chars@.len(),
            pos <= n,
            pieces_view(names@) + names_from(chars@, pos as int) == names_from(chars@, 0),
        decreases n - pos,
    {
        let mut piece: Vec<char> = Vec::new();
        let mut end: usize = pos;
        proof {
            lemma_piece_end_bounds(chars@, pos as int);
        }
        while end < n && chars[end] != '/'
            invariant
                n == chars@.len(),
                pos <= end <= n,
                piece@ == chars@.subrange(pos as int, end as int),
                piece_end(chars@, end as int) == piece_end(chars@, pos as int),
            decreases n - end,
        {
            piece.push(chars[end]);
            assert(chars@.subrange(pos as int, end + 1) =~= chars@.subrange(
                pos as int,
                end as int,
            ).push(chars@[end as int]));
            end += 1;
        }
        assert(piece_end(chars@, pos as int) == end);
        let idle = piece.len() == 0 || (piece.len() == 1 && piece[0] == '.');
        assert(idle == is_idle(piece@)) by {
            if piece@.len() == 1 && piece@[0] == '.' {
                assert(piece@ =~= seq!['.']);
            }
        }
        if !idle {
            let ghost before = pieces_view(names@);
            names.push(piece);
            assert(pieces_view(names@) =~= before + seq![piece@]);
        }
        pos = if end < n { end + 1 } else { n };
        assert(pieces_view(names@) + names_from(chars@, pos as int) =~= names_from(chars@, 0));
    }
    assert(pieces_view(names@) + names_from(chars@, pos as int) =~= pieces_view(names@));
    names
}

/// Whether two vectors hold the same characters.
pub fn same_chars(a: &Vec<char>, b: &Vec<char>) -> (r: bool)
    ensures
        r == (a@ == b@),
{
    if a.len() != b.len() {
        return false;
    }
    let mut i: usize = 0;
    while i < a.len()
        invariant
            a@.len() == b@.len(),
            i <= a@.len(),
            forall|j: int| 0 <= j < i ==> a@[j] == b@[j],
        decreases a@.len() - i,
    {
        if a[i] != b[i] {
            return false;
        }
        i += 1;
    }
    assert(a@ =~= b@);
    true
}

/// Whether two vectors of pieces hold the same texts.
pub fn same_pieces(a: &Vec<Vec<char>>, b: &Vec<Vec<char>>) -> (r: bool)
    ensures
        r == (pieces_view(a@) == pieces_view(b@)),
{
    if a.len() != b.len() {
        assert(pieces_view(a@).len() != pieces_view(b@).len());
        return false;
    }
    let mut i: usize = 0;
    while i < a.len()
        invariant
            a@.len() == b@.len(),
            i <= a@.len(),
            forall|j: int| 0 <= j < i ==> a@[j]@ == b@[j]@,
        decreases a@.len() - i,
    {
        if !same_chars(&a[i], &b[i]) {
            assert(pieces_view(a@)[i as int] != pieces_view(b@)[i as int]);
            return false;
        }
        i += 1;
    }
    assert(pieces_view(a@) =~= pieces_view(b@));
    true
}

/// Whether the first piece of a relative path is `.`.
fn starts_dotted(chars: &Vec<char>) -> (r: bool)
    ensures
        r == path_key(chars@).dotted,
{
    let n = chars.len();
    proof {
        lemma_piece_end_bounds(chars@, 0);
        if n >= 1 && chars@[0] != '/' {
            lemma_piece_end_bounds(chars@, 1);
        }
    }
    let r = n >= 1 && chars[0] == '.' && (n == 1 || chars[1] == '/');
    proof {
        let first = chars@.subrange(0, piece_end(chars@, 0));
        if r {
            assert(piece_end(chars@, 0) == 1);
            assert(first =~= seq!['.']);
        } else if first == seq!['.'] {
            assert(first.len() == 1);
            assert(first[0] == '.');
        }
    }
    r
}

/// Whether `a` and `b` spell one path.
pub fn paths_are_same(a: &str, b: &str) -> (r: bool)
    ensures
        r == same_path(a@, b@),
{
    let ca = chars_of(a);
    let cb = chars_of(b);
    let rooted_a = ca.len() > 0 && ca[0] == '/';
    let rooted_b = cb.len() > 0 && cb[0] == '/';
    if rooted_a != rooted_b {
        return false;
    }
    if starts_dotted(&ca) != starts_dotted(&cb) {
        return false;
    }
    let na = path_names(&ca);
    let nb = path_names(&cb);
    same_pieces(&na, &nb)
}

} // verus!
