//! The context handed to page templates: the navigation bar and a payload.

use vstd::prelude::*;

verus! {

/// One entry of the navigation bar.
pub struct Link {
    pub name: String,
    pub href: String,
    pub active: bool,
}

/// The context of a page template.
pub struct Context<T> {
    pub name: String,
    pub nav: Vec<Link>,
    pub t: Option<T>,
}

/// The target of navigation entry `i`.
pub open spec fn nav_href(i: int) -> Seq<char> {
    if i == 0 { "/"@ }
    else if i == 1 { "/mapbuilder"@ }
    else if i == 2 { "/lobby"@ }
    else if i == 3 { "/visualizer"@ }
    else if i == 4 { "/debug"@ }
    else { "/info"@ }
}

/// The title of navigation entry `i`.
pub open spec fn nav_name(i: int) -> Seq<char> {
    if i == 0 { "Home"@ }
    else if i == 1 { "Map Builder"@ }
    else if i == 2 { "Lobby"@ }
    else if i == 3 { "Visualizer"@ }
    else if i == 4 { "Debug Station"@ }
    else { "Info"@ }
}

/// The navigation bar, with the entry titled `active` marked.
pub open spec fn nav_bar(links: Seq<Link>, active: Seq<char>) -> bool {
    &&& links.len() == 6
    &&& forall|i: int| 0 <= i < 6 ==> {
        &&& (#[trigger] links[i]).href@ == nav_href(i)
        &&& links[i].name@ == nav_name(i)
        &&& links[i].active == (nav_name(i) == active)
    }
}

fn nav_entry(i: usize) -> (r: (&'static str, &'static str))
    requires
        i < 6,
    ensures
        r.0@ == nav_href(i as int),
        r.1@ == nav_name(i as int),
{
    if i == 0 {
        ("/", "Home")
    } else if i == 1 {
        ("/mapbuilder", "Map Builder")
    } else if i == 2 {
        ("/lobby", "Lobby")
    } else if i == 3 {
        ("/visualizer", "Visualizer")
    } else if i == 4 {
        ("/debug", "Debug Station")
    } else {
        ("/info", "Info")
    }
}

impl Link {
    /// The navigation bar with the entry titled `active` marked.
    pub fn build_nav(active: &str) -> (r: Vec<Link>)
        ensures
            nav_bar(r@, active@),
    {
        let wanted = String::from_str(active);
        let mut links: Vec<Link> = Vec::new();
        let mut i: usize = 0;
        while i < 6
            invariant
                wanted@ == active@,
                i <= 6,
                links@.len() == i,
                forall|j: int| 0 <= j < i ==> {
                    &&& (#[trigger] links@[j]).href@ == nav_href(j)
                    &&& links@[j].name@ == nav_name(j)
                    &&& links@[j].active == (nav_name(j) == active@)
                },
            decreases 6 - i,
        {
            let (href, name) = nav_entry(i);
            let name = String::from_str(name);
            let is_active = name == wanted;
            links.push(Link { name, href: String::from_str(href), active: is_active });
            i = i + 1;
        }
        links
    }
}

impl<T> Context<T> {
    /// A context for the page titled `active`, carrying `t`.
    pub fn new_with(active: &str, t: T) -> (r: Self)
        ensures
            r.name@.len() == 0,
            nav_bar(r.nav@, active@),
            r.t == Some(t),
    {
        let nav = Link::build_nav(active);
        Context { nav, name: String::new(), t: Some(t) }
    }
}

impl Context<()> {
    /// A context for the page titled `active`, without payload.
    pub fn new(active: &str) -> (r: Self)
        ensures
            r.name@.len() == 0,
            nav_bar(r.nav@, active@),
            r.t is None,
    {
        let nav = Link::build_nav(active);
        Context { nav, name: String::new(), t: None }
    }
}

} // verus!
