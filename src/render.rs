//! Rendering of a sealed message: markdown to HTML, without the tags the chat
//! surface does not take.
use vstd::prelude::*;

verus! {

/// The HTML that the markdown renderer makes of a text.
pub uninterp spec fn html_of(s: Seq<char>) -> Seq<char>;

/// Relies on markdown::to_html: CommonMark rendered to HTML with the default
/// options, a function of the text alone (it cannot fail without MDX).
#[verifier::external_body]
fn markdown_to_html(s: &str) -> (r: String)
    ensures
        r@ == html_of(s@),
{
    markdown::to_html(s)
}

/// Relies on String::push: appends one character.
#[verifier::external_body]
fn push_char(s: &mut String, c: char)
    ensures
        final(s)@ == old(s)@.push(c),
{
    s.push(c)
}

/// `s` with every occurrence of `p` removed, scanning from the left and never
/// reusing a removed character (as a replacement of `p` by nothing does).
pub open spec fn remove_all(s: Seq<char>, p: Seq<char>) -> Seq<char>
    decreases s.len(),
{
    if p.len() == 0 || s.len() < p.len() {
        s
    } else if s.take(p.len() as int) == p {
        remove_all(s.skip(p.len() as int), p)
    } else {
        seq![s[0]] + remove_all(s.skip(1), p)
    }
}

/// The tags that are taken out of rendered HTML, in the order they are taken out.
pub open spec fn dropped_tags() -> Seq<Seq<char>> {
    seq![
        "<p>"@, "</p>"@, "<br />"@, "<li>"@, "</li>"@, "<ol>"@, "</ol>"@, "<h1>"@, "</h1>"@,
        "<h2>"@, "</h2>"@, "<h3>"@, "</h3>"@, "<h4>"@, "</h4>"@, "<h5>"@, "</h5>"@, "<ul>"@,
        "</ul>"@,
    ]
}

/// `s` after removing the first `k` tags of `dropped_tags`, one after the other.
pub open spec fn strip_first(s: Seq<char>, k: nat) -> Seq<char>
    decreases k,
{
    if k == 0 || k > dropped_tags().len() {
        s
    } else {
        remove_all(strip_first(s, (k - 1) as nat), dropped_tags()[k - 1])
    }
}

/// `s` without any of the dropped tags.
pub open spec fn stripped(s: Seq<char>) -> Seq<char> {
    strip_first(s, dropped_tags().len())
}

fn chars_of(s: &str) -> (r: Vec<char>)
    ensures
        r@ == s@,
{
    let mut v: Vec<char> = Vec::new();
    for c in it: s.chars()
        invariant
            v@ == it.seq().take(it.index() as int),
    {
        v.push(c);
    }
    v
}

fn string_of(v: &Vec<char>) -> (r: String)
    ensures
        r@ == v@,
{
    let mut r = String::new();
    let mut k: usize = 0;
    while k < v.len()
        invariant
            k <= v.len(),
            r@ == v@.take(k as int),
        decreases v.len() - k,
    {
        push_char(&mut r, v[k]);
        k += 1;
        assert(r@ =~= v@.take(k as int));
    }
    assert(r@ =~= v@);
    r
}

fn matches_at(s: &Vec<char>, i: usize, p: &Vec<char>) -> (r: bool)
    requires
        i + p.len() <= s.len(),
    ensures
        r == (s@.subrange(i as int, i + p.len()) == p@),
{
    let mut j: usize = 0;
    while j < p.len()
        invariant
            j <= p.len(),
            i + p.len() <= s.len(),
            forall|t: int| 0 <= t < j ==> s@[i + t] == p@[t],
        decreases p.len() - j,
    {
        if s[i + j] != p[j] {
            assert(s@.subrange(i as int, i + p.len())[j as int] != p@[j as int]);
            return false;
        }
        j += 1;
    }
    assert(s@.subrange(i as int, i + p.len()) =~= p@);
    true
}

proof fn lemma_remove_step(s: Seq<char>, p: Seq<char>, i: int)
    requires
        p.len() > 0,
        0 <= i < s.len(),
    ensures
        i + p.len() <= s.len() && s.subrange(i, i + p.len()) == p ==> remove_all(s.skip(i), p)
            == remove_all(s.skip(i + p.len()), p),
        !(i + p.len() <= s.len() && s.subrange(i, i + p.len()) == p) ==> remove_all(s.skip(i), p)
            == seq![s[i]] + remove_all(s.skip(i + 1), p),
{
    let t = s.skip(i);
    assert(t.skip(1) =~= s.skip(i + 1));
    if i + p.len() <= s.len() {
        assert(t.take(p.len() as int) =~= s.subrange(i, i + p.len()));
        assert(t.skip(p.len() as int) =~= s.skip(i + p.len()));
    } else {
        assert(t =~= seq![s[i]] + s.skip(i + 1));
    }
}

fn remove_pattern(s: &Vec<char>, p: &Vec<char>) -> (r: Vec<char>)
    ensures
        r@ == remove_all(s@, p@),
{
    let mut out: Vec<char> = Vec::new();
    if p.len() == 0 {
        let mut k: usize = 0;
        while k < s.len()
            invariant
                k <= s.len(),
                out@ == s@.take(k as int),
            decreases s.len() - k,
        {
            out.push(s[k]);
            k += 1;
            assert(out@ =~= s@.take(k as int));
        }
        assert(out@ =~= s@);
        return out;
    }
    let mut i: usize = 0;
    assert(s@.skip(0) =~= s@);
    while i < s.len()
        invariant
            p.len() > 0,
            i <= s.len(),
            out@ + remove_all(s@.skip(i as int), p@) == remove_all(s@, p@),
        decreases s.len() - i,
    {
        proof {
            lemma_remove_step(s@, p@, i as int);
        }
        if p.len() <= s.len() - i && matches_at(s, i, p) {
            i += p.len();
        } else {
            out.push(s[i]);
            i += 1;
            assert(out@ + remove_all(s@.skip(i as int), p@) =~= out@.drop_last() + (seq![s@[i - 1]]
                + remove_all(s@.skip(i as int), p@)));
        }
    }
    assert(s@.skip(i as int) =~= Seq::<char>::empty());
    assert(out@ + remove_all(s@.skip(i as int), p@) =~= out@);
    out
}

/// Takes the dropped tags out of rendered HTML.
pub fn strip_tags(html: &str) -> (r: String)
    ensures
        r@ == stripped(html@),
{
    let tags: Vec<&str> = vec![
        "<p>", "</p>", "<br />", "<li>", "</li>", "<ol>", "</ol>", "<h1>", "</h1>", "<h2>",
        "</h2>", "<h3>", "</h3>", "<h4>", "</h4>", "<h5>", "</h5>", "<ul>", "</ul>",
    ];
    assert(tags@.map_values(|t: &str| t@) =~= dropped_tags());
    let mut cur = chars_of(html);
    let mut k: usize = 0;
    while k < tags.len()
        invariant
            k <= tags.len(),
            tags@.map_values(|t: &str| t@) == dropped_tags(),
            cur@ == strip_first(html@, k as nat),
        decreases tags.len() - k,
    {
        let pat = chars_of(tags[k]);
        assert(tags@.map_values(|t: &str| t@)[k as int] == tags@[k as int]@);
        cur = remove_pattern(&cur, &pat);
        k += 1;
    }
    string_of(&cur)
}

/// Renders a sealed message as HTML that the chat surface accepts: markdown to
/// HTML, then the paragraph, list, heading and line-break tags taken out.
pub fn sanitize_text(s: &str) -> (r: String)
    ensures
        r@ == stripped(html_of(s@)),
{
    let html = markdown_to_html(s);
    strip_tags(html.as_str())
}

} // verus!
