//! News: reading the stories of an RSS feed and keeping those that name
//! rostered players.
use vstd::prelude::*;
use crate::text::{
    chars_eq, chars_of, concat_chars, contains, contains_chars, find_from, find_from_chars,
    lemma_find_from_bounds, slice_chars, starts_with, string_of, strip_prefix, strip_prefix_chars,
    trim, trim_chars,
};

verus! {

/// A news story.
#[derive(Clone, Debug)]
pub struct NewsItem {
    pub title: String,
    pub summary: String,
    pub source: String,
    pub url: String,
}


// ---------------------------------------------------------------------------
// Reading a feed
// ---------------------------------------------------------------------------

/// The opening tag `<name>`.
pub open spec fn open_tag(name: Seq<char>) -> Seq<char> {
    seq!['<'] + name + seq!['>']
}

/// The closing tag `</name>`.
pub open spec fn close_tag(name: Seq<char>) -> Seq<char> {
    seq!['<', '/'] + name + seq!['>']
}

/// The end of a character-data section.
pub open spec fn cdata_end() -> Seq<char> {
    seq![']', ']', '>']
}

/// A text without a `<![CDATA[ ... ]]>` wrapper (trimmed inside), when it has one.
pub open spec fn unwrap_cdata(t: Seq<char>) -> Seq<char> {
    match strip_prefix(t, "<![CDATA["@) {
        Some(rest) => if rest.len() >= 3 && rest.subrange(rest.len() - 3, rest.len() as int) == cdata_end() {
            trim(rest.subrange(0, rest.len() - 3))
        } else {
            t
        },
        None => t,
    }
}

/// The text of the first `<name>…</name>` element of `block`, trimmed and
/// unwrapped; empty when there is none.
pub open spec fn field(block: Seq<char>, name: Seq<char>) -> Seq<char> {
    let open = open_tag(name);
    match find_from(block, open, 0) {
        Some(a) => match find_from(block, close_tag(name), a + open.len()) {
            Some(b) => unwrap_cdata(trim(block.subrange(a + open.len(), b))),
            None => Seq::empty(),
        },
        None => Seq::empty(),
    }
}

/// The contents of the `<item>…</item>` elements of `s` from `from` on, in order.
pub open spec fn item_blocks(s: Seq<char>, from: int) -> Seq<Seq<char>>
    decreases s.len() + 1 - from,
{
    let open = open_tag("item"@);
    let close = close_tag("item"@);
    match find_from(s, open, from) {
        Some(a) => match find_from(s, close, a + open.len()) {
            Some(b) => {
                proof {
                    lemma_find_from_bounds(s, open, from);
                    lemma_find_from_bounds(s, close, a + open.len());
                }
                seq![s.subrange(a + open.len(), b)] + item_blocks(s, b + close.len())
            },
            None => Seq::empty(),
        },
        None => Seq::empty(),
    }
}

/// The story an item tells, in specifications: title, summary, source and link.
pub open spec fn story(block: Seq<char>, source: Seq<char>) -> (Seq<char>, Seq<char>, Seq<char>, Seq<char>) {
    (field(block, "title"@), field(block, "description"@), source, field(block, "link"@))
}

/// The stories of the first `n` item blocks that have a title.
pub open spec fn stories(blocks: Seq<Seq<char>>, source: Seq<char>, n: int) -> Seq<
    (Seq<char>, Seq<char>, Seq<char>, Seq<char>),
>
    decreases n,
{
    if n <= 0 {
        Seq::empty()
    } else if field(blocks[n - 1], "title"@).len() > 0 {
        stories(blocks, source, n - 1).push(story(blocks[n - 1], source))
    } else {
        stories(blocks, source, n - 1)
    }
}

/// A story as a tuple of its texts.
pub open spec fn story_view(n: NewsItem) -> (Seq<char>, Seq<char>, Seq<char>, Seq<char>) {
    (n.title@, n.summary@, n.source@, n.url@)
}

fn open_tag_exec(name: &str) -> (r: Vec<char>)
    ensures
        r@ == open_tag(name@),
{
    let lt = vec!['<'];
    let gt = vec!['>'];
    assert(lt@ =~= seq!['<']);
    assert(gt@ =~= seq!['>']);
    concat_chars(&concat_chars(&lt, &chars_of(name)), &gt)
}

fn close_tag_exec(name: &str) -> (r: Vec<char>)
    ensures
        r@ == close_tag(name@),
{
    let lt = vec!['<', '/'];
    let gt = vec!['>'];
    assert(lt@ =~= seq!['<', '/']);
    assert(gt@ =~= seq!['>']);
    concat_chars(&concat_chars(&lt, &chars_of(name)), &gt)
}

fn unwrap_cdata_exec(t: Vec<char>) -> (r: Vec<char>)
    ensures
        r@ == unwrap_cdata(t@),
{
    match strip_prefix_chars(&t, &chars_of("<![CDATA[")) {
        Some(rest) => {
            if rest.len() >= 3 {
                let tail = slice_chars(&rest, rest.len() - 3, rest.len());
                let end = vec![']', ']', '>'];
                assert(end@ =~= cdata_end());
                if chars_eq(&tail, &end) {
                    return trim_chars(&slice_chars(&rest, 0, rest.len() - 3));
                }
            }
            t
        },
        None => t,
    }
}

fn field_exec(block: &Vec<char>, name: &str) -> (r: Vec<char>)
    ensures
        r@ == field(block@, name@),
{
    let open = open_tag_exec(name);
    let close = close_tag_exec(name);
    match find_from_chars(block, &open, 0) {
        Some(a) => {
            proof {
                lemma_find_from_bounds(block@, open@, 0);
                assert(find_from(block@, open@, 0) == Some(a as int));
                assert(a + open@.len() <= block@.len());
            }
            assert(a + open.len() <= block.len());
            let start: usize = a + open.len();
            match find_from_chars(block, &close, start) {
                Some(b) => {
                    proof {
                        lemma_find_from_bounds(block@, close@, a + open.len());
                    }
                    unwrap_cdata_exec(trim_chars(&slice_chars(block, a + open.len(), b)))
                },
                None => Vec::new(),
            }
        },
        None => Vec::new(),
    }
}

/// The `<item>` blocks of a feed body (see [`item_blocks`]).
fn item_blocks_exec(v: &Vec<char>) -> (r: Vec<Vec<char>>)
    ensures
        r@.map_values(|b: Vec<char>| b@) == item_blocks(v@, 0),
{
    let open = open_tag_exec("item");
    let close = close_tag_exec("item");
    let mut r: Vec<Vec<char>> = Vec::new();
    let mut from: usize = 0;
    loop
        invariant
            open@ == open_tag("item"@),
            close@ == close_tag("item"@),
            from <= v.len() + 1,
            r@.map_values(|b: Vec<char>| b@) + item_blocks(v@, from as int) == item_blocks(v@, 0),
        ensures
            r@.map_values(|b: Vec<char>| b@) == item_blocks(v@, 0),
        decreases v.len() + 1 - from,
    {
        let ghost before = r@.map_values(|b: Vec<char>| b@);
        match find_from_chars(v, &open, from) {
            Some(a) => {
                proof {
                    lemma_find_from_bounds(v@, open@, from as int);
                }
                match find_from_chars(v, &close, a + open.len()) {
                    Some(b) => {
                        proof {
                            lemma_find_from_bounds(v@, close@, a + open.len());
                        }
                        let block = slice_chars(v, a + open.len(), b);
                        r.push(block);
                        proof {
                            assert(item_blocks(v@, from as int) == seq![v@.subrange(a + open.len(), b as int)]
                                + item_blocks(v@, b + close.len()));
                            assert(r@.map_values(|x: Vec<char>| x@) =~= before.push(block@));
                            assert(r@.map_values(|x: Vec<char>| x@) + item_blocks(v@, b + close.len()) =~= before
                                + item_blocks(v@, from as int));
                        }
                        from = b + close.len();
                    },
                    None => {
                        assert(item_blocks(v@, from as int) =~= Seq::<Seq<char>>::empty());
                        assert(before + item_blocks(v@, from as int) =~= before);
                        break;
                    },
                }
            },
            None => {
                assert(item_blocks(v@, from as int) =~= Seq::<Seq<char>>::empty());
                assert(before + item_blocks(v@, from as int) =~= before);
                break;
            },
        }
    }
    r
}

/// The stories of an RSS feed from `source`: one per `<item>` element that has
/// a non-empty title, with its description as summary and its link as URL.
pub fn read_feed(source: &str, body: &str) -> (r: Vec<NewsItem>)
    ensures
        r@.map_values(|n: NewsItem| story_view(n)) == ({
            let blocks = item_blocks(body@, 0);
            stories(blocks, source@, blocks.len() as int)
        }),
{
    let blocks = item_blocks_exec(&chars_of(body));
    let ghost bv = blocks@.map_values(|b: Vec<char>| b@);
    let mut r: Vec<NewsItem> = Vec::new();
    let mut i: usize = 0;
    while i < blocks.len()
        invariant
            i <= blocks.len(),
            bv == blocks@.map_values(|b: Vec<char>| b@),
            bv == item_blocks(body@, 0),
            r@.map_values(|n: NewsItem| story_view(n)) == stories(bv, source@, i as int),
        decreases blocks.len() - i,
    {
        let title = field_exec(&blocks[i], "title");
        if title.len() > 0 {
            let ghost before = r@.map_values(|n: NewsItem| story_view(n));
            let item = NewsItem {
                title: string_of(&title),
                summary: string_of(&field_exec(&blocks[i], "description")),
                source: string_of(&chars_of(source)),
                url: string_of(&field_exec(&blocks[i], "link")),
            };
            r.push(item);
            assert(r@.map_values(|n: NewsItem| story_view(n)) =~= before.push(story(bv[i as int], source@)));
        }
        i = i + 1;
    }
    r
}

// ---------------------------------------------------------------------------
// Stories about the roster
// ---------------------------------------------------------------------------

/// The story names one of `names` in its title or summary.
pub open spec fn mentions_any(item: NewsItem, names: Seq<String>) -> bool {
    exists|k: int|
        0 <= k < names.len() && (contains(item.title@, (#[trigger] names[k])@) || contains(
            item.summary@,
            names[k]@,
        ))
}

/// Whether the story names one of `names`.
fn item_mentions(item: &NewsItem, names: &Vec<String>) -> (r: bool)
    ensures
        r == mentions_any(*item, names@),
{
    let title = chars_of(item.title.as_str());
    let summary = chars_of(item.summary.as_str());
    let mut k: usize = 0;
    while k < names.len()
        invariant
            k <= names.len(),
            title@ == item.title@,
            summary@ == item.summary@,
            forall|q: int|
                0 <= q < k ==> !(contains(item.title@, (#[trigger] names@[q])@) || contains(
                    item.summary@,
                    names@[q]@,
                )),
        decreases names.len() - k,
    {
        let n = chars_of(names[k].as_str());
        if contains_chars(&title, &n) || contains_chars(&summary, &n) {
            assert(contains(item.title@, names@[k as int]@) || contains(item.summary@, names@[k as int]@));
            return true;
        }
        k = k + 1;
    }
    false
}

/// The indices of the stories that name a rostered player, in feed order.
pub open spec fn relevant_upto(feed: Seq<NewsItem>, names: Seq<String>, n: int) -> Seq<int>
    decreases n,
{
    if n <= 0 {
        Seq::empty()
    } else if mentions_any(feed[n - 1], names) {
        relevant_upto(feed, names, n - 1).push(n - 1)
    } else {
        relevant_upto(feed, names, n - 1)
    }
}

/// The stories to keep after a refresh: those naming one of the rostered
/// players, or the whole feed when none does.
pub fn relevant_news(feed: Vec<NewsItem>, names: &Vec<String>) -> (r: Vec<NewsItem>)
    ensures
        relevant_upto(feed@, names@, feed.len() as int).len() == 0 ==> r@ == feed@,
        relevant_upto(feed@, names@, feed.len() as int).len() > 0 ==> {
            &&& r.len() == relevant_upto(feed@, names@, feed.len() as int).len()
            &&& forall|k: int|
                0 <= k < r.len() ==> #[trigger] r@[k] == feed@[relevant_upto(
                    feed@,
                    names@,
                    feed.len() as int,
                )[k]]
        },
{
    let mut keep: Vec<bool> = Vec::new();
    let mut count: usize = 0;
    let mut i: usize = 0;
    while i < feed.len()
        invariant
            i <= feed.len(),
            keep.len() == i,
            count <= i,
            count == relevant_upto(feed@, names@, i as int).len(),
            forall|q: int| 0 <= q < i ==> #[trigger] keep@[q] == mentions_any(feed@[q], names@),
        decreases feed.len() - i,
    {
        let m = item_mentions(&feed[i], names);
        keep.push(m);
        if m {
            count = count + 1;
        }
        i = i + 1;
    }
    if count == 0 {
        return feed;
    }
    let ghost fv = feed@;
    let mut out: Vec<NewsItem> = Vec::new();
    let mut rest = feed;
    let mut back: Vec<NewsItem> = Vec::new();
    // move the stories out from the back, then keep the relevant ones in order
    while rest.len() > 0
        invariant
            rest.len() + back.len() == fv.len(),
            forall|q: int| 0 <= q < rest.len() ==> #[trigger] rest@[q] == fv[q],
            forall|q: int| 0 <= q < back.len() ==> #[trigger] back@[q] == fv[fv.len() - 1 - q],
        decreases rest.len(),
    {
        let item = rest.pop().unwrap();
        back.push(item);
    }
    let mut j: usize = 0;
    while back.len() > 0
        invariant
            j + back.len() == fv.len(),
            keep.len() == fv.len(),
            forall|q: int| 0 <= q < fv.len() ==> #[trigger] keep@[q] == mentions_any(fv[q], names@),
            forall|q: int| 0 <= q < back.len() ==> #[trigger] back@[q] == fv[fv.len() - 1 - q],
            out@ == relevant_upto(fv, names@, j as int).map_values(|x: int| fv[x]),
        decreases back.len(),
    {
        let item = back.pop().unwrap();
        assert(item == fv[j as int]);
        let ghost before = out@;
        if keep[j] {
            out.push(item);
            assert(out@ =~= relevant_upto(fv, names@, j + 1).map_values(|x: int| fv[x]));
        } else {
            assert(out@ =~= relevant_upto(fv, names@, j + 1).map_values(|x: int| fv[x]));
        }
        j = j + 1;
    }
    out
}


/// The stories kept after a refresh are, in feed order, exactly the stories
/// that name a rostered player, when there is one; otherwise the whole feed
/// is kept.
pub proof fn lemma_relevant_stories(feed: Seq<NewsItem>, names: Seq<String>, n: int)
    requires
        0 <= n <= feed.len(),
    ensures
        forall|k: int|
            0 <= k < relevant_upto(feed, names, n).len() ==> {
                let i = #[trigger] relevant_upto(feed, names, n)[k];
                &&& 0 <= i < n
                &&& mentions_any(feed[i], names)
            },
        forall|a: int, b: int|
            0 <= a < b < relevant_upto(feed, names, n).len() ==> relevant_upto(feed, names, n)[a]
                < relevant_upto(feed, names, n)[b],
        forall|i: int|
            0 <= i < n && mentions_any(feed[i], names) ==> relevant_upto(feed, names, n).contains(i),
    decreases n,
{
    if n > 0 {
        lemma_relevant_stories(feed, names, n - 1);
        let prev = relevant_upto(feed, names, n - 1);
        let cur = relevant_upto(feed, names, n);
        if mentions_any(feed[n - 1], names) {
            assert(cur == prev.push(n - 1));
            assert forall|a: int, b: int| 0 <= a < b < cur.len() implies cur[a] < cur[b] by {
                assert(cur[a] == prev[a]);
                if b < prev.len() {
                    assert(cur[b] == prev[b]);
                }
            }
            assert forall|i: int| 0 <= i < n && mentions_any(feed[i], names) implies cur.contains(i) by {
                if i == n - 1 {
                    assert(cur[prev.len() as int] == i);
                } else {
                    assert(prev.contains(i));
                    let q = choose|q: int| 0 <= q < prev.len() && prev[q] == i;
                    assert(cur[q] == i);
                }
            }
        } else {
            assert(cur == prev);
        }
    }
}

} // verus!
