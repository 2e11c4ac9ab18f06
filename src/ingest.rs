use vstd::prelude::*;
use vstd::string::*;

verus! {

/// What a request to the upload listener asks for.
#[derive(Debug, Clone, Copy, PartialEq, Eq, Structural)]
pub enum Route {
    /// `GET /upload.html`: the upload form.
    UploadPage,
    /// `POST /upload`: a multipart body with files.
    Upload,
    /// Anything else.
    NotFound,
}

/// The route of a request with this method and url.
pub open spec fn route_of(method: Seq<char>, url: Seq<char>) -> Route {
    if method == seq!['G', 'E', 'T'] && url == seq![
        '/',
        'u',
        'p',
        'l',
        'o',
        'a',
        'd',
        '.',
        'h',
        't',
        'm',
        'l',
    ] {
        Route::UploadPage
    } else if method == seq!['P', 'O', 'S', 'T'] && url == seq!['/', 'u', 'p', 'l', 'o', 'a', 'd'] {
        Route::Upload
    } else {
        Route::NotFound
    }
}

/// Picks the route of a request from its method and url.
pub fn route(method: &str, url: &str) -> (r: Route)
    ensures
        r == route_of(method@, url@),
{
    let m = String::from_str(method);
    let u = String::from_str(url);
    let get = String::from_str("GET");
    let post = String::from_str("POST");
    let page = String::from_str("/upload.html");
    let upload = String::from_str("/upload");
    proof {
        reveal_strlit("GET");
        reveal_strlit("POST");
        reveal_strlit("/upload.html");
        reveal_strlit("/upload");
    }
    assert(get@ =~= seq!['G', 'E', 'T']);
    assert(post@ =~= seq!['P', 'O', 'S', 'T']);
    assert(page@ =~= seq!['/', 'u', 'p', 'l', 'o', 'a', 'd', '.', 'h', 't', 'm', 'l']);
    assert(upload@ =~= seq!['/', 'u', 'p', 'l', 'o', 'a', 'd']);
    if m == get && u == page {
        Route::UploadPage
    } else if m == post && u == upload {
        Route::Upload
    } else {
        Route::NotFound
    }
}

/// The marker that precedes the boundary in a multipart content type.
pub open spec fn boundary_marker() -> Seq<char> {
    seq!['b', 'o', 'u', 'n', 'd', 'a', 'r', 'y', '=']
}

/// Whether the marker starts at position `i` of `s`.
pub open spec fn marker_at(s: Seq<char>, i: int) -> bool {
    0 <= i && i + 9 <= s.len() && s.subrange(i, i + 9) == boundary_marker()
}

/// Whether the first occurrence of the marker in `s` starts at `i`.
pub open spec fn first_marker_at(s: Seq<char>, i: int) -> bool {
    marker_at(s, i) && forall|j: int| 0 <= j < i ==> !marker_at(s, j)
}

/// The multipart boundary named by a content type: all that follows the first
/// `boundary=`, or nothing where the marker does not occur.
pub fn multipart_boundary(content_type: &str) -> (r: Option<String>)
    ensures
        match r {
            Some(b) => exists|i: int|
                #[trigger] first_marker_at(content_type@, i) && b@ == content_type@.subrange(
                    i + 9,
                    content_type@.len() as int,
                ),
            None => forall|i: int| !marker_at(content_type@, i),
        },
{
    let n = content_type.unicode_len();
    let pat = "boundary=";
    proof {
        reveal_strlit("boundary=");
    }
    assert(pat@ =~= boundary_marker());
    if n < 9 {
        return None;
    }
    let mut i: usize = 0;
    while i <= n - 9
        invariant
            n == content_type@.len(),
            n >= 9,
            pat@ == boundary_marker(),
            forall|j: int| 0 <= j < i ==> !marker_at(content_type@, j),
        decreases n - i,
    {
        let mut k: usize = 0;
        let mut same = true;
        while k < 9 && same
            invariant
                n == content_type@.len(),
                i + 9 <= n,
                pat@ == boundary_marker(),
                k <= 9,
                same ==> forall|t: int| 0 <= t < k ==> content_type@[i + t] == boundary_marker()[t],
                !same ==> !marker_at(content_type@, i as int),
            decreases 9 - k,
        {
            if content_type.get_char(i + k) != pat.get_char(k) {
                same = false;
                assert(content_type@.subrange(i as int, i + 9)[k as int] != boundary_marker()[k as int]);
            }
            k = k + 1;
        }
        if same {
            assert(content_type@.subrange(i as int, i + 9) =~= boundary_marker());
            let rest = content_type.substring_char(i + 9, n);
            let b = String::from_str(rest);
            assert(first_marker_at(content_type@, i as int) && b@ == content_type@.subrange(i + 9, content_type@.len() as int));
            return Some(b);
        }
        i = i + 1;
    }
    assert forall|j: int| !marker_at(content_type@, j) by {
        if 0 <= j && j + 9 <= n {
            assert(j < i);
        }
    }
    None
}

/// A file name with every `..` taken out, read from left to right, and every
/// `/` and `\` turned into `_`.
pub open spec fn cleaned_name(s: Seq<char>) -> Seq<char>
    decreases s.len(),
{
    if s.len() == 0 {
        Seq::empty()
    } else if s.len() >= 2 && s[0] == '.' && s[1] == '.' {
        cleaned_name(s.subrange(2, s.len() as int))
    } else {
        seq![
            if s[0] == '/' || s[0] == '\\' {
                '_'
            } else {
                s[0]
            },
        ] + cleaned_name(s.subrange(1, s.len() as int))
    }
}

proof fn lemma_cleaned_has_no_separator(s: Seq<char>)
    ensures
        forall|j: int|
            0 <= j < cleaned_name(s).len() ==> cleaned_name(s)[j] != '/' && cleaned_name(s)[j]
                != '\\',
    decreases s.len(),
{
    if s.len() >= 2 && s[0] == '.' && s[1] == '.' {
        lemma_cleaned_has_no_separator(s.subrange(2, s.len() as int));
        assert(cleaned_name(s) == cleaned_name(s.subrange(2, s.len() as int)));
    } else if s.len() > 0 {
        let t = s.subrange(1, s.len() as int);
        lemma_cleaned_has_no_separator(t);
        let h = if s[0] == '/' || s[0] == '\\' {
            '_'
        } else {
            s[0]
        };
        assert(cleaned_name(s) == seq![h] + cleaned_name(t));
        assert forall|j: int| 0 <= j < cleaned_name(s).len() implies cleaned_name(s)[j] != '/'
            && cleaned_name(s)[j] != '\\' by {
            if j > 0 {
                assert(cleaned_name(s)[j] == cleaned_name(t)[j - 1]);
            } else {
                assert(cleaned_name(s)[0] == h);
            }
        }
    }
}

proof fn lemma_cleaned_has_no_dot_pair(s: Seq<char>)
    ensures
        forall|j: int|
            0 <= j < cleaned_name(s).len() - 1 ==> !(#[trigger] cleaned_name(s)[j] == '.'
                && cleaned_name(s)[j + 1] == '.'),
        cleaned_name(s).len() > 0 && cleaned_name(s)[0] == '.' ==> s[0] == '.',
    decreases s.len(),
{
    if s.len() >= 2 && s[0] == '.' && s[1] == '.' {
        let t = s.subrange(2, s.len() as int);
        lemma_cleaned_has_no_dot_pair(t);
        assert(cleaned_name(s) == cleaned_name(t));
    } else if s.len() > 0 {
        let t = s.subrange(1, s.len() as int);
        lemma_cleaned_has_no_dot_pair(t);
        let h = if s[0] == '/' || s[0] == '\\' {
            '_'
        } else {
            s[0]
        };
        assert(cleaned_name(s) == seq![h] + cleaned_name(t));
        assert forall|j: int|
            0 <= j < cleaned_name(s).len() - 1 implies !(#[trigger] cleaned_name(s)[j] == '.'
            && cleaned_name(s)[j + 1] == '.') by {
            if j == 0 {
                assert(cleaned_name(s)[1] == cleaned_name(t)[0]);
                if h == '.' {
                    assert(s.len() == 1 || s[1] != '.');
                    if s.len() > 1 {
                        assert(t[0] == s[1]);
                    }
                }
            } else {
                assert(cleaned_name(s)[j] == cleaned_name(t)[j - 1]);
                assert(cleaned_name(s)[j + 1] == cleaned_name(t)[j]);
            }
        }
    }
}

/// The name under which an uploaded file is stored: `..` taken out and path
/// separators replaced, so that it cannot leave the upload directory.
pub fn clean_file_name(name: &str) -> (r: String)
    ensures
        r@ == cleaned_name(name@),
        forall|j: int| 0 <= j < r@.len() ==> r@[j] != '/' && r@[j] != '\\',
        forall|j: int| 0 <= j < r@.len() - 1 ==> !(#[trigger] r@[j] == '.' && r@[j + 1] == '.'),
{
    let n = name.unicode_len();
    let mut out = String::new();
    let mut i: usize = 0;
    let under = "_";
    proof {
        reveal_strlit("_");
    }
    assert(name@.subrange(0, n as int) =~= name@);
    while i < n
        invariant
            n == name@.len(),
            i <= n,
            under@ == seq!['_'],
            out@ + cleaned_name(name@.subrange(i as int, n as int)) == cleaned_name(name@),
        decreases n - i,
    {
        let ghost rest = name@.subrange(i as int, n as int);
        if i + 1 < n && name.get_char(i) == '.' && name.get_char(i + 1) == '.' {
            assert(rest.subrange(2, rest.len() as int) =~= name@.subrange(i + 2, n as int));
            i = i + 2;
        } else {
            let c = name.get_char(i);
            let ghost head = seq![
                if c == '/' || c == '\\' {
                    '_'
                } else {
                    c
                },
            ];
            if c == '/' || c == '\\' {
                out.append(under);
            } else {
                let one = name.substring_char(i, i + 1);
                assert(one@ =~= seq![c]);
                out.append(one);
            }
            assert(rest.subrange(1, rest.len() as int) =~= name@.subrange(i + 1, n as int));
            assert(cleaned_name(rest) == head + cleaned_name(rest.subrange(1, rest.len() as int)));
            assert(out@ + cleaned_name(name@.subrange(i + 1, n as int)) =~= cleaned_name(name@));
            i = i + 1;
        }
    }
    assert(out@ + cleaned_name(name@.subrange(n as int, n as int)) =~= out@);
    proof {
        lemma_cleaned_has_no_separator(name@);
        lemma_cleaned_has_no_dot_pair(name@);
    }
    out
}

} // verus!
