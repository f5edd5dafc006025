use vstd::prelude::*;

verus! {

/// Mathematical model of a [`Chapter`]: both text fields as character sequences.
pub struct ChapterModel {
    pub url: Seq<char>,
    pub title: Seq<char>,
}

/// One unit of the comic: a relative landing-page URL and a normalized,
/// order-preserving title slug. Chapters are the unit of work handed to
/// workers and the identity carried by completion records.
#[derive(Debug)]
pub struct Chapter {
    pub url: String,
    pub title: String,
}

impl View for Chapter {
    type V = ChapterModel;

    open spec fn view(&self) -> ChapterModel {
        ChapterModel { url: self.url@, title: self.title@ }
    }
}

impl DeepView for Chapter {
    type V = ChapterModel;

    open spec fn deep_view(&self) -> ChapterModel {
        self@
    }
}

/// Pushing an element onto a vector appends its deep view to the vector's
/// deep view.
pub proof fn lemma_deep_view_push<T: DeepView>(pre: Seq<T>, pre_dv: Seq<T::V>, post: Seq<T>, x: T)
    requires
        pre_dv == Seq::new(pre.len(), |i: int| pre[i].deep_view()),
        post == pre.push(x),
    ensures
        Seq::new(post.len(), |i: int| post[i].deep_view()) == pre_dv.push(x.deep_view()),
{
    let post_dv = Seq::new(post.len(), |i: int| post[i].deep_view());
    assert forall|k: int| 0 <= k < post.len() implies post_dv[k] == pre_dv.push(x.deep_view())[k] by {
        if k < pre.len() {
            assert(post[k] == pre[k]);
        } else {
            assert(post[k] == x);
        }
    }
    assert(post_dv =~= pre_dv.push(x.deep_view()));
}

impl Clone for Chapter {
    fn clone(&self) -> (r: Self)
        ensures
            r@ == self@,
    {
        Chapter { url: self.url.clone(), title: self.title.clone() }
    }
}

} // verus!
