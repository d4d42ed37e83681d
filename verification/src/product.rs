//! The normalized product profile that the scripts are written from.

use vstd::prelude::*;
use crate::text::strings_view;

verus! {

/// The normalized product facts: identity, source link, title, main image and bullet points.
pub struct Product {
    pub asin: String,
    pub marketplace: String,
    pub source_url: String,
    pub title: String,
    pub main_image_url: String,
    pub bullet_points: Vec<String>,
}

/// What a product holds: its texts, in field order.
pub open spec fn product_view(p: Product) -> (
    Seq<char>,
    Seq<char>,
    Seq<char>,
    Seq<char>,
    Seq<char>,
    Seq<Seq<char>>,
) {
    (
        p.asin@,
        p.marketplace@,
        p.source_url@,
        p.title@,
        p.main_image_url@,
        strings_view(p.bullet_points@),
    )
}

/// A copy of the strings.
pub fn copy_strings(v: &Vec<String>) -> (r: Vec<String>)
    ensures
        strings_view(r@) == strings_view(v@),
{
    let mut r: Vec<String> = Vec::new();
    let mut i: usize = 0;
    while i < v.len()
        invariant
            i <= v@.len(),
            strings_view(r@) == strings_view(v@).take(i as int),
        decreases v.len() - i,
    {
        let ghost before = r@;
        let item = v[i].clone();
        assert(item@ == v@[i as int]@);
        r.push(item);
        assert(strings_view(r@) =~= strings_view(before).push(v@[i as int]@));
        i = i + 1;
        assert(strings_view(r@) =~= strings_view(v@).take(i as int));
    }
    assert(strings_view(v@).take(v@.len() as int) =~= strings_view(v@));
    r
}

impl Product {
    /// A copy of the product.
    pub fn duplicate(&self) -> (r: Product)
        ensures
            product_view(r) == product_view(*self),
    {
        Product {
            asin: self.asin.clone(),
            marketplace: self.marketplace.clone(),
            source_url: self.source_url.clone(),
            title: self.title.clone(),
            main_image_url: self.main_image_url.clone(),
            bullet_points: copy_strings(&self.bullet_points),
        }
    }
}

} // verus!
