use vstd::prelude::*;

verus! {

/// One message of a thread, as the metadata endpoint reports it: an original
/// base filename (no extension), a server-assigned storage id, and an
/// extension with its leading dot. A post carries an attachment only when
/// all three are present; otherwise it is a text-only post.
#[derive(Clone, Debug, PartialEq, Eq)]
pub struct Post {
    pub filename: Option<String>,
    pub tim: Option<u64>,
    pub ext: Option<String>,
}

/// The mathematical value of a `Post`.
pub struct PostV {
    pub filename: Option<Seq<char>>,
    pub tim: Option<u64>,
    pub ext: Option<Seq<char>>,
}

impl View for Post {
    type V = PostV;

    open spec fn view(&self) -> PostV {
        PostV {
            filename: match self.filename {
                Some(ref f) => Some(f@),
                None => None,
            },
            tim: self.tim,
            ext: match self.ext {
                Some(ref e) => Some(e@),
                None => None,
            },
        }
    }
}

/// An ordered snapshot of a thread's posts, in thread order.
#[derive(Clone, Debug, PartialEq, Eq)]
pub struct Thread {
    pub posts: Vec<Post>,
}

/// The mathematical values of a sequence of posts.
pub open spec fn posts_view(s: Seq<Post>) -> Seq<PostV> {
    s.map_values(|p: Post| p@)
}

impl View for Thread {
    type V = Seq<PostV>;

    open spec fn view(&self) -> Seq<PostV> {
        posts_view(self.posts@)
    }
}

/// Whether a post carries a downloadable attachment: filename, tim and
/// extension must all be present; this is the sole discriminator.
pub open spec fn is_attachment(p: PostV) -> bool {
    p.filename is Some && p.tim is Some && p.ext is Some
}

/// Executable attachment test.
pub fn post_is_attachment(p: &Post) -> (r: bool)
    ensures
        r == is_attachment(p@),
{
    p.filename.is_some() && p.tim.is_some() && p.ext.is_some()
}

} // verus!
