//! The sites that can be streamed.

use vstd::prelude::*;
use vstd::string::*;

use crate::text::same;

verus! {

/// A site that can be streamed.
#[derive(Debug, Clone, Copy)]
pub struct Target {
    pub name: &'static str,
    pub title: &'static str,
    pub url: &'static str,
    /// The user agent of a phone: the touch layout is the one that fits a small view.
    pub mobile_user_agent: &'static str,
}

/// What describes a site.
#[verifier::ext_equal]
pub struct TargetView {
    pub name: Seq<char>,
    pub title: Seq<char>,
    pub url: Seq<char>,
    pub mobile_user_agent: Seq<char>,
}

impl View for Target {
    type V = TargetView;

    open spec fn view(&self) -> TargetView {
        TargetView {
            name: self.name@,
            title: self.title@,
            url: self.url@,
            mobile_user_agent: self.mobile_user_agent@,
        }
    }
}

/// The phone that the browser passes itself off as.
pub open spec fn phone() -> Seq<char> {
    "Mozilla/5.0 (Linux; Android 12.0; Pixel 5) AppleWebKit/537.36 (KHTML, like Gecko) Chrome/120.0.0.0 Mobile Safari/537.36"@
}

/// The sites, in the order in which they are offered.
pub open spec fn all_targets() -> Seq<TargetView> {
    seq![
        TargetView {
            name: "genshin"@,
            title: "云·原神"@,
            url: "https://ys.mihoyo.com/cloud/"@,
            mobile_user_agent: phone(),
        },
        TargetView {
            name: "starrail"@,
            title: "云·星穹铁道"@,
            url: "https://sr.mihoyo.com/cloud/"@,
            mobile_user_agent: phone(),
        },
        TargetView {
            name: "yihuan"@,
            title: "云·异环"@,
            url: "https://yh.wanmei.com/cloud/"@,
            mobile_user_agent: phone(),
        },
    ]
}

/// What describes each of a row of sites.
pub open spec fn described(s: Seq<Target>) -> Seq<TargetView> {
    s.map_values(|t: Target| t@)
}

/// The sites, in the order in which they are offered.
pub fn targets() -> (r: Vec<Target>)
    ensures
        described(r@) == all_targets(),
{
    let mobile_user_agent: &'static str =
        "Mozilla/5.0 (Linux; Android 12.0; Pixel 5) AppleWebKit/537.36 (KHTML, like Gecko) Chrome/120.0.0.0 Mobile Safari/537.36";
    let mut r: Vec<Target> = Vec::new();
    r.push(
        Target { name: "genshin", title: "云·原神", url: "https://ys.mihoyo.com/cloud/", mobile_user_agent },
    );
    r.push(
        Target { name: "starrail", title: "云·星穹铁道", url: "https://sr.mihoyo.com/cloud/", mobile_user_agent },
    );
    r.push(
        Target { name: "yihuan", title: "云·异环", url: "https://yh.wanmei.com/cloud/", mobile_user_agent },
    );
    assert(described(r@) =~= all_targets());
    r
}

/// Whether a site of this name is offered.
pub open spec fn is_offered(name: Seq<char>) -> bool {
    exists|i: int| 0 <= i < all_targets().len() && (#[trigger] all_targets()[i]).name == name
}

/// The site of this name.
pub fn find_target(name: &str) -> (r: Option<Target>)
    ensures
        r is Some == is_offered(name@),
        r matches Some(t) ==> t@.name == name@ && all_targets().contains(t@),
{
    let all = targets();
    let mut i: usize = 0;
    while i < all.len()
        invariant
            described(all@) == all_targets(),
            i <= all@.len(),
            forall|j: int| 0 <= j < i ==> (#[trigger] all_targets()[j]).name != name@,
        decreases all@.len() - i,
    {
        let t = all[i];
        assert(described(all@)[i as int] == t@);
        if same(t.name, name) {
            assert(all_targets()[i as int].name == name@);
            return Some(t);
        }
        i += 1;
    }
    assert(all_targets().len() == all@.len());
    None
}

/// A name stands for one site only.
pub proof fn names_are_distinct(i: int, j: int)
    requires
        0 <= i < all_targets().len(),
        0 <= j < all_targets().len(),
        all_targets()[i].name == all_targets()[j].name,
    ensures
        i == j,
{
    reveal_strlit("genshin");
    reveal_strlit("starrail");
    reveal_strlit("yihuan");
    assert("genshin"@.len() == 7 && "starrail"@.len() == 8 && "yihuan"@.len() == 6);
}

/// Each of the sites is shown under its own title, is found at its own address, and is
/// shown to a phone.
pub proof fn sites_are_found_at_their_addresses(t: TargetView)
    requires
        all_targets().contains(t),
    ensures
        t.name == "genshin"@ || t.name == "starrail"@ || t.name == "yihuan"@,
        t.name == "genshin"@ ==> t.title == "云·原神"@ && t.url == "https://ys.mihoyo.com/cloud/"@,
        t.name == "starrail"@ ==> t.title == "云·星穹铁道"@ && t.url == "https://sr.mihoyo.com/cloud/"@,
        t.name == "yihuan"@ ==> t.title == "云·异环"@ && t.url == "https://yh.wanmei.com/cloud/"@,
        t.mobile_user_agent
            == "Mozilla/5.0 (Linux; Android 12.0; Pixel 5) AppleWebKit/537.36 (KHTML, like Gecko) Chrome/120.0.0.0 Mobile Safari/537.36"@,
{
    reveal_strlit("genshin");
    reveal_strlit("starrail");
    reveal_strlit("yihuan");
    assert("genshin"@.len() == 7 && "starrail"@.len() == 8 && "yihuan"@.len() == 6);
}

/// All three sites are offered.
pub proof fn three_sites_are_offered()
    ensures
        all_targets().len() == 3,
        is_offered("genshin"@),
        is_offered("starrail"@),
        is_offered("yihuan"@),
{
    assert(all_targets()[0].name == "genshin"@);
    assert(all_targets()[1].name == "starrail"@);
    assert(all_targets()[2].name == "yihuan"@);
}

/// A site is known by all that it holds.
pub proof fn a_site_is_known_whole(t: Target)
    ensures
        t@.name == t.name@,
        t@.title == t.title@,
        t@.url == t.url@,
        t@.mobile_user_agent == t.mobile_user_agent@,
{
}

} // verus!
