//! The subscription list: feeds to aggregate, with their titles and types.

use vstd::prelude::*;

verus! {

/// A subscription list document.
pub struct Opml {
    pub version: String,
    pub head: Head,
    pub body: BodyList,
}

pub struct Head {
    pub title: String,
}

pub struct BodyList {
    pub outline: Vec<Outline>,
}

/// One subscription: a feed's title, its type and the address of its document.
pub struct Outline {
    pub text: Option<String>,
    pub title: String,
    pub outline_type: String,
    pub xml_url: String,
}

pub open spec fn is_rss(o: Outline) -> bool {
    o.outline_type@ == "rss"@
}

/// The subscriptions of type `rss`, in list order.
pub open spec fn rss_only(os: Seq<Outline>) -> Seq<Outline>
    decreases os.len(),
{
    if os.len() == 0 {
        Seq::empty()
    } else if is_rss(os.last()) {
        rss_only(os.drop_last()).push(os.last())
    } else {
        rss_only(os.drop_last())
    }
}

pub open spec fn derefs(v: Seq<&Outline>) -> Seq<Outline> {
    v.map_values(|o: &Outline| *o)
}

/// The subscriptions that are RSS feeds, in list order.
pub fn get_rss_outlines(opml: &Opml) -> (r: Vec<&Outline>)
    ensures
        derefs(r@) == rss_only(opml.body.outline@),
{
    let os = &opml.body.outline;
    let rss = "rss".to_owned();
    let mut r: Vec<&Outline> = Vec::new();
    let mut i: usize = 0;
    while i < os.len()
        invariant
            rss@ == "rss"@,
            i <= os@.len(),
            derefs(r@) == rss_only(os@.take(i as int)),
        decreases os@.len() - i,
    {
        assert(os@.take(i + 1).drop_last() =~= os@.take(i as int));
        let o = &os[i];
        if o.outline_type == rss {
            r.push(o);
        }
        i = i + 1;
        assert(derefs(r@) =~= rss_only(os@.take(i as int)));
    }
    assert(os@.take(i as int) =~= os@);
    r
}

} // verus!
