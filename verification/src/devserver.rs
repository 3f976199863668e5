//! The decisions of the development server: which file a request asks for,
//! the content type of a file, and the response heads.

use vstd::prelude::*;
use crate::syntax::chars::{char_indices, is_whitespace, unicode_whitespace};
use crate::text::{decimal, push_char, push_str, push_usize, string_of};

verus! {

/// The first line of a text: everything before the first `\n`.
pub open spec fn first_line(s: Seq<char>) -> Seq<char>
    decreases s.len(),
{
    if s.len() == 0 {
        s
    } else if s.last() == '\n' {
        first_line(s.drop_last())
    } else if s.contains('\n') {
        first_line(s.drop_last())
    } else {
        s
    }
}

/// The whitespace-separated words of a text, in order.
pub open spec fn words(s: Seq<char>) -> Seq<Seq<char>>
    decreases s.len(),
{
    if s.len() == 0 {
        Seq::empty()
    } else {
        let rest = words(s.drop_last());
        let c = s.last();
        if unicode_whitespace(c) {
            rest
        } else if s.len() >= 2 && !unicode_whitespace(s[s.len() - 2]) {
            rest.update(rest.len() - 1, rest.last().push(c))
        } else {
            rest.push(seq![c])
        }
    }
}

/// The path of a request: the second word of its first line, or `/`.
pub open spec fn request_path(request: Seq<char>) -> Seq<char> {
    let ws = words(first_line(request));
    if ws.len() >= 2 {
        ws[1]
    } else {
        "/"@
    }
}

/// `s` without its leading slashes.
pub open spec fn strip_slashes(s: Seq<char>) -> Seq<char>
    decreases s.len(),
{
    if s.len() > 0 && s[0] == '/' {
        strip_slashes(s.drop_first())
    } else {
        s
    }
}

/// The file that a request asks for: `index.html` for `/`, otherwise its
/// path without leading slashes.
pub open spec fn requested_file_of(request: Seq<char>) -> Seq<char> {
    let p = request_path(request);
    if p == "/"@ {
        "index.html"@
    } else {
        strip_slashes(p)
    }
}

/// The content type of a file with the given extension.
pub open spec fn mime_of(ext: Option<Seq<char>>) -> Seq<char> {
    if ext == Some("wasm"@) {
        "application/wasm"@
    } else if ext == Some("html"@) {
        "text/html; charset=utf-8"@
    } else if ext == Some("js"@) {
        "application/javascript; charset=utf-8"@
    } else if ext == Some("css"@) {
        "text/css; charset=utf-8"@
    } else {
        "application/octet-stream"@
    }
}

/// The head of a successful response with the given content type and length.
pub open spec fn ok_head_of(mime: Seq<char>, len: nat) -> Seq<char> {
    "HTTP/1.1 200 OK\r\nContent-Type: "@ + mime + "\r\nContent-Length: "@ + decimal(len)
        + "\r\nAccess-Control-Allow-Origin: *\r\n\r\n"@
}

/// The words of the first `k` characters extend those of the first `k - 1`.
proof fn lemma_words_step(s: Seq<char>, k: int)
    requires
        0 < k <= s.len(),
    ensures
        s.subrange(0, k).drop_last() == s.subrange(0, k - 1),
        s.subrange(0, k).last() == s[k - 1],
        k >= 2 ==> s.subrange(0, k)[k - 2] == s[k - 2],
{
    assert(s.subrange(0, k).drop_last() =~= s.subrange(0, k - 1));
}

/// The first line of the text up to the first `\n` is that text.
proof fn lemma_first_line(s: Seq<char>, k: int)
    requires
        0 <= k <= s.len(),
        forall|i: int| 0 <= i < k ==> s[i] != '\n',
        k == s.len() || s[k] == '\n',
    ensures
        first_line(s) == s.subrange(0, k),
    decreases s.len(),
{
    if s.len() == k {
        assert(!s.contains('\n'));
        assert(s.subrange(0, k) =~= s);
    } else {
        assert(s.contains('\n')) by {
            assert(s[k] == '\n');
        }
        let t = s.drop_last();
        assert forall|i: int| 0 <= i < k implies t[i] != '\n' by {
            assert(t[i] == s[i]);
        }
        if k < t.len() {
            assert(t[k] == s[k]);
        }
        lemma_first_line(t, k);
        assert(t.subrange(0, k) =~= s.subrange(0, k));
    }
}

/// The file that an HTTP request asks for (see `requested_file_of`).
pub fn requested_file(request: &str) -> (r: String)
    ensures
        r@ == requested_file_of(request@),
{
    let cs = char_indices(request);
    let ghost s = request@;
    // The end of the first line.
    let mut k: usize = 0;
    while k < cs.len() && cs[k].1 != '\n'
        invariant
            k <= cs@.len(),
            cs@.len() == s.len(),
            forall|i: int| 0 <= i < s.len() ==> (#[trigger] cs@[i]).1 == s[i],
            forall|i: int| 0 <= i < k ==> s[i] != '\n',
        decreases cs@.len() - k,
    {
        k += 1;
    }
    proof { lemma_first_line(s, k as int); }
    let ghost line = s.subrange(0, k as int);
    // The words of the first line: the second is kept.
    let mut count: usize = 0;
    let mut second = String::new();
    let mut j: usize = 0;
    while j < k
        invariant
            j <= k <= cs@.len(),
            cs@.len() == s.len(),
            forall|i: int| 0 <= i < s.len() ==> (#[trigger] cs@[i]).1 == s[i],
            line == s.subrange(0, k as int),
            count == if words(line.subrange(0, j as int)).len() <= 2 {
                words(line.subrange(0, j as int)).len()
            } else {
                3
            },
            count >= 2 ==> second@ == words(line.subrange(0, j as int))[1],
            count < 2 ==> second@ == Seq::<char>::empty(),
        decreases k - j,
    {
        let c = cs[j].1;
        let ghost pre = line.subrange(0, j as int);
        proof {
            lemma_words_step(line, j as int + 1);
            assert(line[j as int] == c);
            if j >= 1 {
                assert(line[j - 1] == cs@[j - 1].1);
            }
        }
        if !is_whitespace(c) {
            let starts = j == 0 || is_whitespace(cs[j - 1].1);
            if starts {
                if count == 1 {
                    push_char(&mut second, c);
                    assert(second@ =~= seq![c]);
                }
                if count < 3 {
                    count += 1;
                }
            } else if count == 2 {
                push_char(&mut second, c);
            }
        }
        proof {
            let w = words(line.subrange(0, j + 1));
            let wp = words(pre);
            if !unicode_whitespace(c) && !(j == 0 || unicode_whitespace(line[j - 1])) {
                assert(wp.len() > 0) by {
                    lemma_words_nonempty(pre);
                }
            }
        }
        j += 1;
    }
    assert(line.subrange(0, k as int) =~= line);
    let path_is_root = count < 2 || second == string_of("/");
    proof { reveal_strlit("/"); }
    if path_is_root {
        return string_of("index.html");
    }
    strip_leading_slashes(&second)
}

/// A text that ends with a non-whitespace character has a word.
proof fn lemma_words_nonempty(s: Seq<char>)
    requires
        s.len() > 0,
        !unicode_whitespace(s.last()),
    ensures
        words(s).len() > 0,
    decreases s.len(),
{
    if s.len() >= 2 && !unicode_whitespace(s[s.len() - 2]) {
        let t = s.drop_last();
        assert(t.last() == s[s.len() - 2]);
        lemma_words_nonempty(t);
    }
}

/// `s` without its leading slashes.
fn strip_leading_slashes(s: &String) -> (r: String)
    ensures
        r@ == strip_slashes(s@),
{
    let cs = char_indices(s.as_str());
    let mut a: usize = 0;
    assert(s@.subrange(0, s@.len() as int) =~= s@);
    while a < cs.len() && cs[a].1 == '/'
        invariant
            a <= cs@.len(),
            cs@.len() == s@.len(),
            forall|i: int| 0 <= i < s@.len() ==> (#[trigger] cs@[i]).1 == s@[i],
            strip_slashes(s@) == strip_slashes(s@.subrange(a as int, s@.len() as int)),
        decreases cs@.len() - a,
    {
        let ghost w = s@.subrange(a as int, s@.len() as int);
        assert(w[0] == s@[a as int]);
        assert(w.drop_first() =~= s@.subrange(a + 1, s@.len() as int));
        a += 1;
    }
    let mut r = String::new();
    let mut i = a;
    while i < cs.len()
        invariant
            a <= i <= cs@.len(),
            cs@.len() == s@.len(),
            forall|q: int| 0 <= q < s@.len() ==> (#[trigger] cs@[q]).1 == s@[q],
            r@ == s@.subrange(a as int, i as int),
        decreases cs@.len() - i,
    {
        push_char(&mut r, cs[i].1);
        assert(r@ =~= s@.subrange(a as int, i + 1));
        i += 1;
    }
    proof {
        let w = s@.subrange(a as int, s@.len() as int);
        if w.len() > 0 {
            assert(w[0] == s@[a as int]);
        }
    }
    r
}

/// The content type of a file with the given extension (see `mime_of`).
pub fn mime_type(ext: Option<&str>) -> (r: String)
    ensures
        r@ == mime_of(
            match ext {
                Some(e) => Some(e@),
                None => None,
            },
        ),
{
    match ext {
        Some(e) => {
            let e = string_of(e);
            if e == string_of("wasm") {
                string_of("application/wasm")
            } else if e == string_of("html") {
                string_of("text/html; charset=utf-8")
            } else if e == string_of("js") {
                string_of("application/javascript; charset=utf-8")
            } else if e == string_of("css") {
                string_of("text/css; charset=utf-8")
            } else {
                string_of("application/octet-stream")
            }
        },
        None => string_of("application/octet-stream"),
    }
}

/// The head of a successful response (see `ok_head_of`).
pub fn ok_head(mime: &str, len: usize) -> (r: String)
    ensures
        r@ == ok_head_of(mime@, len as nat),
{
    let mut r = string_of("HTTP/1.1 200 OK\r\nContent-Type: ");
    push_str(&mut r, mime);
    push_str(&mut r, "\r\nContent-Length: ");
    push_usize(&mut r, len);
    push_str(&mut r, "\r\nAccess-Control-Allow-Origin: *\r\n\r\n");
    r
}

/// The whole response for a file that is not there.
pub fn not_found() -> (r: String)
    ensures
        r@ == "HTTP/1.1 404 NOT FOUND\r\nContent-Length: 9\r\n\r\nNot Found"@,
{
    string_of("HTTP/1.1 404 NOT FOUND\r\nContent-Length: 9\r\n\r\nNot Found")
}


proof fn lemma_strip_slashes(s: Seq<char>)
    ensures
        strip_slashes(s).len() > 0 ==> strip_slashes(s)[0] != '/',
    decreases s.len(),
{
    if s.len() > 0 && s[0] == '/' {
        lemma_strip_slashes(s.drop_first());
    }
}

/// Law: the file that a request names never begins with `/`: it is always
/// taken relative to the served directory.
pub proof fn law_requested_file_is_relative(request: Seq<char>)
    ensures
        requested_file_of(request).len() > 0 ==> requested_file_of(request)[0] != '/',
{
    reveal_strlit("index.html");
    lemma_strip_slashes(request_path(request));
}

} // verus!
