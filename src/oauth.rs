//! The pure parts of the OAuth code grab: reading the redirect target out of
//! the callback's HTTP request line, and the reply sent back to the browser.
use vstd::prelude::*;

verus! {

/// Characters that separate words of a request line (Unicode `White_Space`).
pub open spec fn is_space(c: char) -> bool {
    let u = c as u32;
    (9 <= u <= 13) || u == 32 || u == 0x85 || u == 0xA0 || u == 0x1680 || (0x2000 <= u
        <= 0x200A) || u == 0x2028 || u == 0x2029 || u == 0x202F || u == 0x205F || u == 0x3000
}

/// `s` without its leading white space.
pub open spec fn skip_space(s: Seq<char>) -> Seq<char>
    decreases s.len(),
{
    if s.len() > 0 && is_space(s[0]) {
        skip_space(s.drop_first())
    } else {
        s
    }
}

/// The longest prefix of `s` without white space.
pub open spec fn word(s: Seq<char>) -> Seq<char>
    decreases s.len(),
{
    if s.len() > 0 && !is_space(s[0]) {
        seq![s[0]] + word(s.drop_first())
    } else {
        Seq::empty()
    }
}

/// The second white-space separated word of `s`, if there is one.
pub open spec fn second_word(s: Seq<char>) -> Option<Seq<char>> {
    let r = skip_space(s);
    let first = word(r);
    let t = word(skip_space(r.skip(first.len() as int)));
    if t.len() == 0 { None } else { Some(t) }
}

/// The origin of the redirect URI that the login registers.
pub open spec fn callback_origin() -> Seq<char> {
    "http://localhost:8888"@
}

proof fn lemma_skip_space_step(s: Seq<char>, i: int)
    requires
        0 <= i < s.len(),
        is_space(s[i]),
    ensures
        skip_space(s.skip(i)) == skip_space(s.skip(i + 1)),
{
    assert(s.skip(i).drop_first() =~= s.skip(i + 1));
}

proof fn lemma_word_step(s: Seq<char>, start: int, i: int)
    requires
        0 <= start <= i < s.len(),
        !is_space(s[i]),
        word(s.skip(start)) == s.subrange(start, i) + word(s.skip(i)),
    ensures
        word(s.skip(start)) == s.subrange(start, i + 1) + word(s.skip(i + 1)),
{
    assert(s.skip(i).drop_first() =~= s.skip(i + 1));
    assert(s.subrange(start, i) + (seq![s[i]] + word(s.skip(i + 1))) =~= s.subrange(start, i + 1)
        + word(s.skip(i + 1)));
}

/// Whether `c` separates words of a request line.
fn is_space_char(c: char) -> (r: bool)
    ensures
        r == is_space(c),
{
    let u = c as u32;
    (9 <= u && u <= 13) || u == 32 || u == 0x85 || u == 0xA0 || u == 0x1680 || (0x2000 <= u && u
        <= 0x200A) || u == 0x2028 || u == 0x2029 || u == 0x202F || u == 0x205F || u == 0x3000
}

/// First index at or after `i` that holds no white space (the length if none).
fn skip_space_from(s: &str, n: usize, i: usize) -> (r: usize)
    requires
        n == s@.len(),
        i <= n,
    ensures
        i <= r <= n,
        skip_space(s@.skip(i as int)) == s@.skip(r as int),
{
    let mut k = i;
    while k < n
        invariant
            n == s@.len(),
            i <= k <= n,
            skip_space(s@.skip(i as int)) == skip_space(s@.skip(k as int)),
        decreases n - k,
    {
        let c = s.get_char(k);
        let space = is_space_char(c);
        if !space {
            return k;
        }
        proof {
            lemma_skip_space_step(s@, k as int);
        }
        k = k + 1;
    }
    assert(s@.skip(n as int).len() == 0);
    k
}

/// First index at or after `i` that holds white space (the length if none).
fn skip_word_from(s: &str, n: usize, i: usize) -> (r: usize)
    requires
        n == s@.len(),
        i <= n,
    ensures
        i <= r <= n,
        word(s@.skip(i as int)) == s@.subrange(i as int, r as int),
{
    let mut k = i;
    assert(s@.subrange(i as int, i as int) + word(s@.skip(i as int)) =~= word(s@.skip(i as int)));
    while k < n
        invariant
            n == s@.len(),
            i <= k <= n,
            word(s@.skip(i as int)) == s@.subrange(i as int, k as int) + word(s@.skip(k as int)),
        decreases n - k,
    {
        let c = s.get_char(k);
        let space = is_space_char(c);
        if space {
            assert(word(s@.skip(k as int)) =~= Seq::<char>::empty());
            assert(s@.subrange(i as int, k as int) + Seq::<char>::empty() =~= s@.subrange(
                i as int,
                k as int,
            ));
            return k;
        }
        proof {
            lemma_word_step(s@, i as int, k as int);
        }
        k = k + 1;
    }
    assert(word(s@.skip(n as int)) =~= Seq::<char>::empty());
    assert(s@.subrange(i as int, n as int) + Seq::<char>::empty() =~= s@.subrange(
        i as int,
        n as int,
    ));
    k
}

/// The URL that the browser was redirected to, rebuilt from the request line
/// of the callback request: the redirect URI's origin followed by the
/// request target, the line's second word. `None` when the line has no
/// second word.
pub fn callback_url(request_line: &str) -> (r: Option<String>)
    ensures
        match second_word(request_line@) {
            Some(target) => r matches Some(u) && u@ == callback_origin() + target,
            None => r is None,
        },
{
    let n = request_line.unicode_len();
    let ghost s = request_line@;
    let a = skip_space_from(request_line, n, 0);
    assert(s.skip(0) =~= s);
    let b = skip_word_from(request_line, n, a);
    let ghost r0 = skip_space(s);
    assert(r0 == s.skip(a as int));
    assert(word(r0).len() == b - a);
    assert(r0.skip(word(r0).len() as int) =~= s.skip(b as int));
    let c = skip_space_from(request_line, n, b);
    let d = skip_word_from(request_line, n, c);
    if c == d {
        return None;
    }
    let target = request_line.substring_char(c, d);
    let mut url = String::from_str("http://localhost:8888");
    url.append(target);
    Some(url)
}

/// The reply sent to the browser once the code has been read: a success
/// status and a page that closes itself.
pub fn success_response() -> (r: &'static str)
    ensures
        r@ == "HTTP/1.1 200 OK\r\n\r\n<script>window.close();</script>"@,
{
    "HTTP/1.1 200 OK\r\n\r\n<script>window.close();</script>"
}

} // verus!
