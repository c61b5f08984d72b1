use crate::text::{
    contains_str, has_sub, is_route_line, lemma_rejoin_push, line_is_route, lines_of, matches_at,
    rejoin, split_lines,
};
use vstd::prelude::*;

verus! {

broadcast use {Seq::lemma_filter_push, vstd::seq_lib::group_filter_ensures};

/// The exact route line the tool manages for one address, newline included.
pub open spec fn spec_route_line(ip: Seq<char>) -> Seq<char> {
    "route "@ + ip + " 255.255.255.255 net_gateway\n"@
}

/// The config text after the add path's edit: unchanged when the
/// `route-nopull` directive already occurs anywhere in it, else with a
/// `route-nopull` line appended.
pub open spec fn with_nopull(c: Seq<char>) -> Seq<char> {
    if has_sub(c, "route-nopull"@) {
        c
    } else {
        c + "route-nopull\n"@
    }
}

/// The addresses whose exact route line is absent from the config text:
/// each gets one install attempt.
pub open spec fn install_list(c: Seq<char>, ips: Seq<Seq<char>>) -> Seq<Seq<char>> {
    ips.filter(|ip: Seq<char>| !has_sub(c, spec_route_line(ip)))
}

/// A line the remove path drops: its first token is `route` and it holds
/// some resolved address as a substring.
pub open spec fn removable(l: Seq<char>, ips: Seq<Seq<char>>) -> bool {
    is_route_line(l) && exists|k: int| 0 <= k < ips.len() && has_sub(l, ips[k])
}

pub open spec fn keep_filter(ls: Seq<Seq<char>>, ips: Seq<Seq<char>>) -> Seq<Seq<char>> {
    ls.filter(|l: Seq<char>| !removable(l, ips))
}

pub open spec fn drop_filter(ls: Seq<Seq<char>>, ips: Seq<Seq<char>>) -> Seq<Seq<char>> {
    ls.filter(|l: Seq<char>| removable(l, ips))
}

pub open spec fn route_filter(ls: Seq<Seq<char>>) -> Seq<Seq<char>> {
    ls.filter(|l: Seq<char>| is_route_line(l))
}

/// The route lines, in file order: what the list path prints.
pub open spec fn route_lines(c: Seq<char>) -> Seq<Seq<char>> {
    route_filter(lines_of(c))
}

/// What the add path decides from the config text and the resolved
/// addresses.
pub struct AddPlan {
    /// The config text to write back.
    pub config: String,
    /// The addresses whose route line was absent, one install attempt each.
    pub installs: Vec<String>,
}

/// What the remove path decides from the config text and the resolved
/// addresses.
pub struct RemovePlan {
    /// The config text to write back.
    pub config: String,
    /// The dropped lines, in file order.
    pub removed: Vec<String>,
}

/// Builds the route line for one address.
pub fn route_line(ip: &str) -> (r: String)
    ensures
        r@ == spec_route_line(ip@),
{
    let mut r = String::from_str("route ");
    r.append(ip);
    r.append(" 255.255.255.255 net_gateway\n");
    r
}

/// Appending the directive plants it as a substring, so a second add of
/// `route-nopull` changes nothing: the edit is idempotent.
pub proof fn lemma_nopull_idempotent(c: Seq<char>)
    ensures
        with_nopull(with_nopull(c)) == with_nopull(c),
{
    if !has_sub(c, "route-nopull"@) {
        reveal_strlit("route-nopull");
        reveal_strlit("route-nopull\n");
        let w = c + "route-nopull\n"@;
        assert(w.subrange(c.len() as int, c.len() as int + 12) =~= "route-nopull"@);
        assert(matches_at(w, "route-nopull"@, c.len() as int));
        assert(has_sub(w, "route-nopull"@));
    }
}

/// The add path's decision: the config text to write back, and the
/// addresses to install, exactly those whose route line the (possibly
/// extended) text does not already hold.
pub fn add_plan(content: &str, ips: &Vec<String>) -> (r: AddPlan)
    ensures
        r.config@ == with_nopull(content@),
        r.installs.deep_view() == install_list(with_nopull(content@), ips.deep_view()),
{
    let mut config = String::from_str(content);
    if !contains_str(content, "route-nopull") {
        config.append("route-nopull\n");
    }
    let ghost newc = with_nopull(content@);
    let mut installs: Vec<String> = Vec::new();
    let mut i: usize = 0;
    proof {
        assert(ips.deep_view().subrange(0, 0) =~= Seq::<Seq<char>>::empty());
        assert(install_list(newc, ips.deep_view().subrange(0, 0)).len() == 0);
        assert(installs.deep_view() =~~= install_list(newc, ips.deep_view().subrange(0, 0)));
    }
    while i < ips.len()
        invariant
            config@ == newc,
            newc == with_nopull(content@),
            i <= ips.len(),
            ips.deep_view().len() == ips@.len(),
            installs.deep_view() == install_list(newc, ips.deep_view().subrange(0, i as int)),
        decreases ips.len() - i,
    {
        let ghost dv = ips.deep_view();
        let line = route_line(ips[i].as_str());
        let absent = !contains_str(config.as_str(), line.as_str());
        proof {
            assert(dv[i as int] == ips@[i as int]@);
            assert(dv.subrange(0, i + 1) =~= dv.subrange(0, i as int).push(dv[i as int]));
        }
        if absent {
            let ghost old_iv = installs.deep_view();
            installs.push(ips[i].clone());
            proof {
                assert(installs.deep_view() =~~= old_iv.push(dv[i as int]));
                assert(install_list(newc, dv.subrange(0, i as int).push(dv[i as int]))
                    == install_list(newc, dv.subrange(0, i as int)).push(dv[i as int]));
            }
        } else {
            proof {
                assert(install_list(newc, dv.subrange(0, i as int).push(dv[i as int]))
                    == install_list(newc, dv.subrange(0, i as int)));
            }
        }
        i = i + 1;
    }
    proof {
        assert(ips.deep_view().subrange(0, ips.deep_view().len() as int) =~= ips.deep_view());
    }
    AddPlan { config, installs }
}

/// Does the line hold any of the addresses as a substring?
pub fn matches_any(l: &str, ips: &Vec<String>) -> (r: bool)
    ensures
        r == exists|k: int| 0 <= k < ips.deep_view().len() && has_sub(l@, ips.deep_view()[k]),
{
    let mut k: usize = 0;
    while k < ips.len()
        invariant
            k <= ips.len(),
            ips.deep_view().len() == ips@.len(),
            forall|p: int| 0 <= p < k ==> !has_sub(l@, ips.deep_view()[p]),
        decreases ips.len() - k,
    {
        if contains_str(l, ips[k].as_str()) {
            proof {
                assert(ips.deep_view()[k as int] == ips@[k as int]@);
                assert(has_sub(l@, ips.deep_view()[k as int]));
            }
            return true;
        }
        proof {
            assert(ips.deep_view()[k as int] == ips@[k as int]@);
        }
        k = k + 1;
    }
    false
}

/// The remove path's decision: the rebuilt config text, each kept line
/// followed by one newline, and the dropped lines in file order.
pub fn remove_plan(content: &str, ips: &Vec<String>) -> (r: RemovePlan)
    ensures
        r.config@ == rejoin(keep_filter(lines_of(content@), ips.deep_view())),
        r.removed.deep_view() == drop_filter(lines_of(content@), ips.deep_view()),
{
    let ls = split_lines(content);
    let ghost lv = lines_of(content@);
    let ghost iv = ips.deep_view();
    let mut config = String::new();
    let mut removed: Vec<String> = Vec::new();
    let mut i: usize = 0;
    proof {
        assert(lv.subrange(0, 0) =~= Seq::<Seq<char>>::empty());
        assert(keep_filter(lv.subrange(0, 0), iv).len() == 0);
        assert(drop_filter(lv.subrange(0, 0), iv).len() == 0);
        assert(config@ =~= rejoin(keep_filter(lv.subrange(0, 0), iv)));
        assert(removed.deep_view() =~~= drop_filter(lv.subrange(0, 0), iv));
    }
    while i < ls.len()
        invariant
            ls.deep_view() == lv,
            lv == lines_of(content@),
            iv == ips.deep_view(),
            ips.deep_view().len() == ips@.len(),
            i <= ls.len(),
            lv.len() == ls@.len(),
            config@ == rejoin(keep_filter(lv.subrange(0, i as int), iv)),
            removed.deep_view() == drop_filter(lv.subrange(0, i as int), iv),
        decreases ls.len() - i,
    {
        let is_route = line_is_route(ls[i].as_str());
        let hit = matches_any(ls[i].as_str(), ips);
        proof {
            assert(lv[i as int] == ls@[i as int]@);
            assert(lv.subrange(0, i + 1) =~= lv.subrange(0, i as int).push(lv[i as int]));
            assert((is_route && hit) == removable(lv[i as int], iv));
        }
        if is_route && hit {
            let ghost old_rv = removed.deep_view();
            removed.push(ls[i].clone());
            proof {
                assert(removed.deep_view() =~~= old_rv.push(lv[i as int]));
                assert(drop_filter(lv.subrange(0, i as int).push(lv[i as int]), iv)
                    == drop_filter(lv.subrange(0, i as int), iv).push(lv[i as int]));
                assert(keep_filter(lv.subrange(0, i as int).push(lv[i as int]), iv)
                    == keep_filter(lv.subrange(0, i as int), iv));
            }
        } else {
            config.append(ls[i].as_str());
            config.append("\n");
            proof {
                assert(drop_filter(lv.subrange(0, i as int).push(lv[i as int]), iv)
                    == drop_filter(lv.subrange(0, i as int), iv));
                assert(keep_filter(lv.subrange(0, i as int).push(lv[i as int]), iv)
                    == keep_filter(lv.subrange(0, i as int), iv).push(lv[i as int]));
                lemma_rejoin_push(keep_filter(lv.subrange(0, i as int), iv), lv[i as int]);
                reveal_strlit("\n");
                assert("\n"@ =~= seq!['\n']);
                assert(config@ == rejoin(keep_filter(lv.subrange(0, i + 1), iv)));
            }
        }
        i = i + 1;
    }
    proof {
        assert(lv.subrange(0, lv.len() as int) =~= lv);
    }
    RemovePlan { config, removed }
}

/// The list path's result: the route lines, verbatim and in file order.
pub fn list_routes(content: &str) -> (r: Vec<String>)
    ensures
        r.deep_view() == route_lines(content@),
{
    let ls = split_lines(content);
    let ghost lv = lines_of(content@);
    let mut out: Vec<String> = Vec::new();
    let mut i: usize = 0;
    proof {
        assert(lv.subrange(0, 0) =~= Seq::<Seq<char>>::empty());
        assert(route_filter(lv.subrange(0, 0)).len() == 0);
        assert(out.deep_view() =~~= route_filter(lv.subrange(0, 0)));
    }
    while i < ls.len()
        invariant
            ls.deep_view() == lv,
            lv == lines_of(content@),
            i <= ls.len(),
            lv.len() == ls@.len(),
            out.deep_view() == route_filter(lv.subrange(0, i as int)),
        decreases ls.len() - i,
    {
        let keep = line_is_route(ls[i].as_str());
        proof {
            assert(lv[i as int] == ls@[i as int]@);
            assert(lv.subrange(0, i + 1) =~= lv.subrange(0, i as int).push(lv[i as int]));
        }
        if keep {
            let ghost old_ov = out.deep_view();
            out.push(ls[i].clone());
            proof {
                assert(out.deep_view() =~~= old_ov.push(lv[i as int]));
                assert(route_filter(lv.subrange(0, i as int).push(lv[i as int]))
                    == route_filter(lv.subrange(0, i as int)).push(lv[i as int]));
            }
        } else {
            proof {
                assert(route_filter(lv.subrange(0, i as int).push(lv[i as int]))
                    == route_filter(lv.subrange(0, i as int)));
            }
        }
        i = i + 1;
    }
    proof {
        assert(lv.subrange(0, lv.len() as int) =~= lv);
    }
    out
}

} // verus!
