use vstd::prelude::*;
use vstd::string::StringExecFns;

use crate::posts::{is_attachment, posts_view, PostV, Thread};
use crate::text::{spec_dec, u64_to_dec};
use crate::urlparse::ThreadRef;

verus! {

/// One pending download: where the file goes, relative to the output root,
/// and the media URL its bytes come from.
#[derive(Clone, Debug, PartialEq, Eq)]
pub struct Target {
    pub rel_path: String,
    pub url: String,
}

/// The mathematical value of a `Target`.
pub struct TargetV {
    pub rel_path: Seq<char>,
    pub url: Seq<char>,
}

impl View for Target {
    type V = TargetV;

    open spec fn view(&self) -> TargetV {
        TargetV { rel_path: self.rel_path@, url: self.url@ }
    }
}

/// The mathematical values of a sequence of targets.
pub open spec fn targets_view(s: Seq<Target>) -> Seq<TargetV> {
    s.map_values(|t: Target| t@)
}

/// The canonical metadata endpoint for a board/thread pair.
pub open spec fn spec_metadata_url(board: Seq<char>, thread_id: Seq<char>) -> Seq<char> {
    "https://a.4cdn.org/"@ + board + "/thread/"@ + thread_id + ".json"@
}

/// The media endpoint for one attachment, from its board, storage id and
/// extension.
pub open spec fn spec_media_url(board: Seq<char>, tim: u64, ext: Seq<char>) -> Seq<char> {
    "https://i.4cdn.org/"@ + board + "/"@ + spec_dec(tim as nat) + ext
}

/// The path of one attachment below the output root:
/// board, thread id, then the disambiguated local filename.
pub open spec fn spec_rel_path(board: Seq<char>, thread_id: Seq<char>, local: Seq<char>) -> Seq<
    char,
> {
    board + "/"@ + thread_id + "/"@ + local
}

/// The disambiguated local filename: the original name, then the occurrence
/// suffix (nothing for the first occurrence, "1", "2", ... for repeats, in
/// encounter order), then the extension with its leading dot.
pub open spec fn spec_local_name(filename: Seq<char>, occ: nat, ext: Seq<char>) -> Seq<char> {
    filename + (if occ == 0 {
        Seq::<char>::empty()
    } else {
        spec_dec(occ)
    }) + ext
}

/// How many attachment-bearing posts of `posts` carry the original filename
/// `name`.
pub open spec fn occ_count(posts: Seq<PostV>, name: Seq<char>) -> nat
    decreases posts.len(),
{
    if posts.len() == 0 {
        0
    } else {
        occ_count(posts.drop_last(), name) + (if is_attachment(posts.last())
            && posts.last().filename->Some_0 == name {
            1nat
        } else {
            0nat
        })
    }
}

/// The download target of one attachment-bearing post, given how many
/// attachments with the same original filename came before it.
pub open spec fn spec_target(
    board: Seq<char>,
    thread_id: Seq<char>,
    p: PostV,
    occ: nat,
) -> TargetV
    recommends
        is_attachment(p),
{
    TargetV {
        rel_path: spec_rel_path(
            board,
            thread_id,
            spec_local_name(p.filename->Some_0, occ, p.ext->Some_0),
        ),
        url: spec_media_url(board, p.tim->Some_0, p.ext->Some_0),
    }
}

/// The download plan of a thread: one target per attachment-bearing post, in
/// thread order, with occurrence suffixes counted over the preceding posts.
/// Text-only posts contribute nothing.
pub open spec fn spec_plan(board: Seq<char>, thread_id: Seq<char>, posts: Seq<PostV>) -> Seq<
    TargetV,
>
    decreases posts.len(),
{
    if posts.len() == 0 {
        Seq::empty()
    } else {
        spec_plan(board, thread_id, posts.drop_last()) + (if is_attachment(posts.last()) {
            seq![
                spec_target(
                    board,
                    thread_id,
                    posts.last(),
                    occ_count(posts.drop_last(), posts.last().filename->Some_0),
                ),
            ]
        } else {
            Seq::empty()
        })
    }
}

/// Builds the metadata URL for a thread.
pub fn metadata_url(t: &ThreadRef) -> (r: String)
    ensures
        r@ == spec_metadata_url(t.board@, t.thread_id@),
{
    let mut s = String::from_str("https://a.4cdn.org/");
    s.append(t.board.as_str());
    s.append("/thread/");
    s.append(t.thread_id.as_str());
    s.append(".json");
    s
}

/// Builds the media URL of one attachment.
pub fn media_url(board: &str, tim: u64, ext: &str) -> (r: String)
    ensures
        r@ == spec_media_url(board@, tim, ext@),
{
    let mut s = String::from_str("https://i.4cdn.org/");
    s.append(board);
    s.append("/");
    let digits = u64_to_dec(tim);
    s.append(digits.as_str());
    s.append(ext);
    s
}

/// Builds the disambiguated local filename of one attachment.
pub fn local_name(filename: &str, occ: u64, ext: &str) -> (r: String)
    ensures
        r@ == spec_local_name(filename@, occ as nat, ext@),
{
    let mut s = String::from_str(filename);
    if occ > 0 {
        let digits = u64_to_dec(occ);
        s.append(digits.as_str());
    }
    s.append(ext);
    proof {
        assert(s@ =~= spec_local_name(filename@, occ as nat, ext@));
    }
    s
}

/// Builds the path of one attachment below the output root.
pub fn rel_path(board: &str, thread_id: &str, local: &str) -> (r: String)
    ensures
        r@ == spec_rel_path(board@, thread_id@, local@),
{
    let mut s = String::from_str(board);
    s.append("/");
    s.append(thread_id);
    s.append("/");
    s.append(local);
    proof {
        assert(s@ =~= spec_rel_path(board@, thread_id@, local@));
    }
    s
}

/// Counts, among the first `i` posts, the attachment-bearing ones that carry
/// the original filename `name`.
fn count_prior(thread: &Thread, i: usize, name: &String) -> (c: usize)
    requires
        i <= thread.posts@.len(),
    ensures
        c as nat == occ_count(thread@.subrange(0, i as int), name@),
        c <= i,
{
    let posts = &thread.posts;
    let ghost pv = posts_view(posts@);
    let mut c: usize = 0;
    let mut j: usize = 0;
    while j < i
        invariant
            j <= i <= posts@.len(),
            c <= j,
            posts@ == thread.posts@,
            pv == posts_view(posts@),
            c as nat == occ_count(pv.subrange(0, j as int), name@),
        decreases i - j,
    {
        let p = &posts[j];
        let mut hit = false;
        match (&p.filename, &p.tim, &p.ext) {
            (Some(f), Some(_), Some(_)) => {
                if f.eq(name) {
                    hit = true;
                }
            },
            _ => {},
        }
        proof {
            let s1 = pv.subrange(0, j + 1);
            assert(s1.drop_last() =~= pv.subrange(0, j as int));
            assert(s1.last() == pv[j as int]);
            assert(pv[j as int] == posts@[j as int]@);
        }
        if hit {
            c += 1;
        }
        j += 1;
    }
    c
}

/// Builds the download plan of a thread: one target per attachment-bearing
/// post, in thread order, each with its collision-free local filename and
/// its media URL. Text-only posts contribute zero targets.
pub fn plan_downloads(t: &ThreadRef, thread: &Thread) -> (r: Vec<Target>)
    ensures
        targets_view(r@) == spec_plan(t.board@, t.thread_id@, thread@),
{
    let posts = &thread.posts;
    let ghost pv = posts_view(posts@);
    let mut out: Vec<Target> = Vec::new();
    let mut i: usize = 0;
    proof {
        assert(pv.subrange(0, 0) =~= Seq::<PostV>::empty());
        assert(targets_view(out@) =~= Seq::<TargetV>::empty());
    }
    while i < posts.len()
        invariant
            i <= posts@.len(),
            posts@ == thread.posts@,
            pv == posts_view(posts@),
            pv == thread@,
            targets_view(out@) == spec_plan(t.board@, t.thread_id@, pv.subrange(0, i as int)),
        decreases posts@.len() - i,
    {
        let p = &posts[i];
        proof {
            let s1 = pv.subrange(0, i + 1);
            assert(s1.drop_last() =~= pv.subrange(0, i as int));
            assert(s1.last() == pv[i as int]);
            assert(pv[i as int] == posts@[i as int]@);
        }
        match (&p.filename, &p.tim, &p.ext) {
            (Some(name), Some(tim), Some(ext)) => {
                let occ = count_prior(thread, i, name);
                let lname = local_name(name.as_str(), occ as u64, ext.as_str());
                let rel = rel_path(t.board.as_str(), t.thread_id.as_str(), lname.as_str());
                let url = media_url(t.board.as_str(), *tim, ext.as_str());
                let tg = Target { rel_path: rel, url };
                let ghost tgv = tg@;
                proof {
                    let s1 = pv.subrange(0, i + 1);
                    assert(is_attachment(s1.last()));
                    assert(tgv == spec_target(
                        t.board@,
                        t.thread_id@,
                        s1.last(),
                        occ_count(s1.drop_last(), s1.last().filename->Some_0),
                    ));
                }
                out.push(tg);
                proof {
                    let s1 = pv.subrange(0, i + 1);
                    assert(targets_view(out@) =~= spec_plan(t.board@, t.thread_id@, s1.drop_last())
                        + seq![tgv]);
                }
            },
            _ => {
                proof {
                    let s1 = pv.subrange(0, i + 1);
                    assert(!is_attachment(s1.last()));
                    assert(spec_plan(t.board@, t.thread_id@, s1) =~= spec_plan(
                        t.board@,
                        t.thread_id@,
                        s1.drop_last(),
                    ));
                }
            },
        }
        i += 1;
    }
    proof {
        assert(pv.subrange(0, posts@.len() as int) =~= pv);
    }
    out
}

/// Identical original filenames with the same extension still get distinct
/// local names, because their occurrence suffixes differ.
pub proof fn lemma_local_names_distinct(
    filename: Seq<char>,
    ext: Seq<char>,
    occ1: nat,
    occ2: nat,
)
    requires
        occ1 != occ2,
    ensures
        spec_local_name(filename, occ1, ext) != spec_local_name(filename, occ2, ext),
{
    let s1 = if occ1 == 0 {
        Seq::<char>::empty()
    } else {
        spec_dec(occ1)
    };
    let s2 = if occ2 == 0 {
        Seq::<char>::empty()
    } else {
        spec_dec(occ2)
    };
    if occ1 > 0 {
        crate::text::lemma_dec_len(occ1);
    }
    if occ2 > 0 {
        crate::text::lemma_dec_len(occ2);
    }
    if spec_local_name(filename, occ1, ext) == spec_local_name(filename, occ2, ext) {
        assert(spec_local_name(filename, occ1, ext) == filename + s1 + ext);
        assert(spec_local_name(filename, occ2, ext) == filename + s2 + ext);
        assert((filename + s1 + ext).len() == filename.len() + s1.len() + ext.len());
        assert((filename + s2 + ext).len() == filename.len() + s2.len() + ext.len());
        assert(s1.len() == s2.len());
        assert forall|k: int| 0 <= k < s1.len() implies s1[k] == s2[k] by {
            assert((filename + s1 + ext)[filename.len() + k] == s1[k]);
            assert((filename + s2 + ext)[filename.len() + k] == s2[k]);
        }
        assert(s1 =~= s2);
        crate::text::lemma_dec_injective(occ1, occ2);
    }
}

/// Distinct local names stay distinct after the board and thread id are
/// prefixed: the files of one thread land at distinct paths.
pub proof fn lemma_rel_paths_distinct(
    board: Seq<char>,
    thread_id: Seq<char>,
    l1: Seq<char>,
    l2: Seq<char>,
)
    requires
        l1 != l2,
    ensures
        spec_rel_path(board, thread_id, l1) != spec_rel_path(board, thread_id, l2),
{
    let p1 = spec_rel_path(board, thread_id, l1);
    let p2 = spec_rel_path(board, thread_id, l2);
    if p1 == p2 {
        let head = board + "/"@ + thread_id + "/"@;
        assert(p1 == head + l1);
        assert(p2 == head + l2);
        assert(l1.len() == l2.len());
        assert forall|k: int| 0 <= k < l1.len() implies l1[k] == l2[k] by {
            assert((head + l1)[head.len() + k] == l1[k]);
            assert((head + l2)[head.len() + k] == l2[k]);
        }
        assert(l1 =~= l2);
    }
}

/// Occurrence counts never decrease along the thread.
pub proof fn lemma_occ_monotone(posts: Seq<PostV>, name: Seq<char>, i: int, j: int)
    requires
        0 <= i <= j <= posts.len(),
    ensures
        occ_count(posts.take(i), name) <= occ_count(posts.take(j), name),
    decreases j - i,
{
    if i < j {
        lemma_occ_monotone(posts, name, i, j - 1);
        assert(posts.take(j).drop_last() =~= posts.take(j - 1));
    }
}

/// Counting past an attachment-bearing post that carries the filename
/// raises its occurrence count by exactly one.
pub proof fn lemma_occ_counts_each(posts: Seq<PostV>, name: Seq<char>, i: int)
    requires
        0 <= i < posts.len(),
        is_attachment(posts[i]),
        posts[i].filename->Some_0 == name,
    ensures
        occ_count(posts.take(i + 1), name) == occ_count(posts.take(i), name) + 1,
{
    assert(posts.take(i + 1).drop_last() =~= posts.take(i));
    assert(posts.take(i + 1).last() == posts[i]);
}

/// The Disambiguator's guarantee for repeats: two attachment-bearing posts
/// of one thread that carry the same original filename and the same
/// extension are assigned distinct local names (the suffixes "", "1", "2",
/// ... differ), so their files never overwrite each other.
pub proof fn lemma_repeats_get_distinct_names(posts: Seq<PostV>, i: int, j: int)
    requires
        0 <= i < j < posts.len(),
        is_attachment(posts[i]),
        is_attachment(posts[j]),
        posts[i].filename->Some_0 == posts[j].filename->Some_0,
        posts[i].ext->Some_0 == posts[j].ext->Some_0,
    ensures
        spec_local_name(
            posts[i].filename->Some_0,
            occ_count(posts.take(i), posts[i].filename->Some_0),
            posts[i].ext->Some_0,
        ) != spec_local_name(
            posts[j].filename->Some_0,
            occ_count(posts.take(j), posts[j].filename->Some_0),
            posts[j].ext->Some_0,
        ),
{
    let name = posts[i].filename->Some_0;
    lemma_occ_counts_each(posts, name, i);
    lemma_occ_monotone(posts, name, i + 1, j);
    lemma_local_names_distinct(
        name,
        posts[i].ext->Some_0,
        occ_count(posts.take(i), name),
        occ_count(posts.take(j), name),
    );
}

/// A post missing any of filename, tim or extension contributes zero
/// download targets: inserting a text-only post anywhere in a thread leaves
/// the occurrence counts of every filename unchanged.
pub proof fn lemma_occ_ignores_text_posts(posts: Seq<PostV>, i: int, p: PostV, name: Seq<char>)
    requires
        0 <= i <= posts.len(),
        !is_attachment(p),
    ensures
        occ_count(posts.insert(i, p), name) == occ_count(posts, name),
    decreases posts.len(),
{
    let s2 = posts.insert(i, p);
    if i == posts.len() {
        assert(s2.drop_last() =~= posts);
        assert(s2.last() == p);
    } else {
        assert(posts.len() > 0);
        assert(s2.last() == posts.last());
        assert(s2.drop_last() =~= posts.drop_last().insert(i, p));
        lemma_occ_ignores_text_posts(posts.drop_last(), i, p, name);
    }
}

/// A post missing any of filename, tim or extension contributes zero
/// download targets: inserting a text-only post anywhere in a thread leaves
/// the download plan unchanged.
pub proof fn lemma_plan_ignores_text_posts(
    board: Seq<char>,
    thread_id: Seq<char>,
    posts: Seq<PostV>,
    i: int,
    p: PostV,
)
    requires
        0 <= i <= posts.len(),
        !is_attachment(p),
    ensures
        spec_plan(board, thread_id, posts.insert(i, p)) == spec_plan(board, thread_id, posts),
    decreases posts.len(),
{
    let s2 = posts.insert(i, p);
    if i == posts.len() {
        assert(s2.drop_last() =~= posts);
        assert(s2.last() == p);
        assert(spec_plan(board, thread_id, s2) =~= spec_plan(board, thread_id, posts));
    } else {
        assert(posts.len() > 0);
        assert(s2.last() == posts.last());
        assert(s2.drop_last() =~= posts.drop_last().insert(i, p));
        lemma_plan_ignores_text_posts(board, thread_id, posts.drop_last(), i, p);
        if is_attachment(posts.last()) {
            lemma_occ_ignores_text_posts(
                posts.drop_last(),
                i,
                p,
                posts.last().filename->Some_0,
            );
        }
    }
}

} // verus!
