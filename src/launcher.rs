use vstd::prelude::*;

verus! {

/// Whether the regular expression `pattern` matches somewhere in `text`;
/// none when `pattern` is not an accepted regular expression.
pub uninterp spec fn regex_find(pattern: Seq<char>, text: Seq<char>) -> Option<bool>;

/// The lowercase form of `s`.
pub uninterp spec fn lower_of(s: Seq<char>) -> Seq<char>;

/// Relies on `regex::Regex::new`, which refuses an invalid or oversized
/// pattern, and `Regex::is_match`, true iff the pattern matches somewhere in
/// the haystack.
#[verifier::external_body]
fn search(pattern: &str, text: &str) -> (r: Option<bool>)
    ensures
        r == regex_find(pattern@, text@),
{
    match regex::Regex::new(pattern) {
        Ok(re) => Some(re.is_match(text)),
        Err(_) => None,
    }
}

/// Relies on `str::to_lowercase`: the result depends on the characters alone.
#[verifier::external_body]
fn lowercase(s: &str) -> (r: String)
    ensures
        r@ == lower_of(s@),
{
    s.to_lowercase()
}

/// What the launcher knows of an installed application.
pub struct AppEntry {
    pub title: String,
    pub description: String,
}

/// `app` is listed for the search text `pattern`: every application when the
/// text is no valid pattern, otherwise those whose lowercase title or
/// description it matches.
pub open spec fn matches_app(pattern: Seq<char>, app: AppEntry) -> bool {
    listed_by(
        regex_find(pattern, lower_of(app.title@)),
        regex_find(pattern, lower_of(app.description@)),
    )
}

/// Decides from the search results on the title and on the description:
/// listed when the pattern is refused or when either matches.
pub open spec fn listed_by(title: Option<bool>, description: Option<bool>) -> bool {
    title is None || title == Some(true) || description == Some(true)
}

/// Indices, in order, of the first `n` applications listed for `pattern`.
pub open spec fn listed(pattern: Seq<char>, apps: Seq<AppEntry>, n: int) -> Seq<usize>
    decreases n,
{
    if n <= 0 {
        Seq::empty()
    } else if matches_app(pattern, apps[n - 1]) {
        listed(pattern, apps, n - 1).push((n - 1) as usize)
    } else {
        listed(pattern, apps, n - 1)
    }
}

/// A key the launcher reacts to.
#[derive(Clone, Copy, Debug, PartialEq, Eq, Structural)]
pub enum LaunchKey {
    ArrowUp,
    ArrowDown,
    Escape,
    Other,
}

/// What the launcher window should do after a key.
#[derive(Clone, Copy, Debug, PartialEq, Eq, Structural)]
pub enum LaunchAction {
    /// Nothing.
    Stay,
    /// Give the search field the keyboard focus.
    Focus,
    /// Close the launcher window.
    Close,
}

/// Whether `pattern` lists `app`.
pub fn app_matches(pattern: &str, app: &AppEntry) -> (r: bool)
    ensures
        r == matches_app(pattern@, *app),
{
    let t = search(pattern, lowercase(app.title.as_str()).as_str());
    let d = search(pattern, lowercase(app.description.as_str()).as_str());
    is_listed(t, d)
}

/// Computes [`listed_by`].
pub fn is_listed(title: Option<bool>, description: Option<bool>) -> (r: bool)
    ensures
        r == listed_by(title, description),
{
    match title {
        None => true,
        Some(true) => true,
        Some(false) => match description {
            Some(true) => true,
            _ => false,
        },
    }
}

/// The application launcher: a search text, the installed applications and
/// the highlighted position among those listed.
pub struct Launcher {
    text: String,
    apps: Vec<AppEntry>,
    scrollpos: usize,
    should_delete: bool,
}

impl Launcher {
    /// The search text.
    pub closed spec fn text_spec(&self) -> Seq<char> {
        self.text@
    }

    /// The installed applications.
    pub closed spec fn apps_spec(&self) -> Seq<AppEntry> {
        self.apps@
    }

    /// The highlighted position among the listed applications.
    pub closed spec fn scrollpos_spec(&self) -> int {
        self.scrollpos as int
    }

    /// Indices of the listed applications.
    pub open spec fn listed_spec(&self) -> Seq<usize> {
        listed(self.text_spec(), self.apps_spec(), self.apps_spec().len() as int)
    }

    /// A launcher over `apps` with an empty search.
    pub fn new(apps: Vec<AppEntry>) -> (r: Self)
        ensures
            r.text_spec().len() == 0,
            r.apps_spec() == apps@,
            r.scrollpos_spec() == 0,
            !r.should_delete_spec(),
    {
        Launcher { text: String::new(), apps, scrollpos: 0, should_delete: false }
    }

    /// The launcher is done and its window should go.
    pub closed spec fn should_delete_spec(&self) -> bool {
        self.should_delete
    }

    /// Whether the launcher is done and its window should go.
    pub fn should_delete(&self) -> (r: bool)
        ensures
            r == self.should_delete_spec(),
    {
        self.should_delete
    }

    /// The highlighted position.
    pub fn scrollpos(&self) -> (r: usize)
        ensures
            r == self.scrollpos_spec(),
    {
        self.scrollpos
    }

    /// The applications the search lists, as indices in order.
    pub fn listed_apps(&self) -> (r: Vec<usize>)
        ensures
            r@ == self.listed_spec(),
    {
        let mut r: Vec<usize> = Vec::new();
        let mut i: usize = 0;
        while i < self.apps.len()
            invariant
                i <= self.apps@.len(),
                r@ == listed(self.text@, self.apps@, i as int),
            decreases self.apps@.len() - i,
        {
            if app_matches(self.text.as_str(), &self.apps[i]) {
                r.push(i);
            }
            i += 1;
        }
        r
    }

    /// The search text changed: the highlight goes back to the top.
    pub fn search_edit_changed(&mut self, edit: String)
        ensures
            final(self).text_spec() == edit@,
            final(self).apps_spec() == old(self).apps_spec(),
            final(self).scrollpos_spec() == 0,
            final(self).should_delete_spec() == old(self).should_delete_spec(),
    {
        self.text = edit;
        self.scrollpos = 0;
    }

    /// The search was submitted: the highlighted application, if any, is
    /// the one to launch, and the launcher is done.
    pub fn search_submit(&mut self) -> (r: Option<usize>)
        ensures
            final(self).text_spec() == old(self).text_spec(),
            final(self).apps_spec() == old(self).apps_spec(),
            final(self).scrollpos_spec() == old(self).scrollpos_spec(),
            old(self).scrollpos_spec() < old(self).listed_spec().len() ==> r == Some(
                old(self).listed_spec()[old(self).scrollpos_spec()],
            ) && final(self).should_delete_spec(),
            old(self).scrollpos_spec() >= old(self).listed_spec().len() ==> r is None
                && final(self).should_delete_spec() == old(self).should_delete_spec(),
    {
        let listed = self.listed_apps();
        if self.scrollpos < listed.len() {
            self.should_delete = true;
            Some(listed[self.scrollpos])
        } else {
            None
        }
    }

    /// The application at `index` was picked: it is the one to launch, and
    /// the launcher is done.
    pub fn launch(&mut self, index: usize) -> (r: usize)
        requires
            index < old(self).apps_spec().len(),
        ensures
            r == index,
            final(self).should_delete_spec(),
            final(self).text_spec() == old(self).text_spec(),
            final(self).apps_spec() == old(self).apps_spec(),
            final(self).scrollpos_spec() == old(self).scrollpos_spec(),
    {
        self.should_delete = true;
        index
    }

    /// A key was pressed or released: arrows move the highlight within the
    /// listed applications, escape closes the launcher.
    pub fn key_event(&mut self, key: LaunchKey) -> (r: LaunchAction)
        ensures
            final(self).text_spec() == old(self).text_spec(),
            final(self).apps_spec() == old(self).apps_spec(),
            ({
                let p = old(self).scrollpos_spec();
                let n = old(self).listed_spec().len();
                match key {
                    LaunchKey::ArrowUp => if p == 0 {
                        r == LaunchAction::Stay && final(self).scrollpos_spec() == p
                    } else {
                        r == LaunchAction::Focus && final(self).scrollpos_spec() == p - 1
                    },
                    LaunchKey::ArrowDown => if n == 0 || p >= n - 1 {
                        r == LaunchAction::Stay && final(self).scrollpos_spec() == p
                    } else {
                        r == LaunchAction::Focus && final(self).scrollpos_spec() == p + 1
                    },
                    LaunchKey::Escape => r == LaunchAction::Close && final(self).scrollpos_spec() == p,
                    LaunchKey::Other => r == LaunchAction::Focus && final(self).scrollpos_spec() == p,
                }
            }),
            key == LaunchKey::Escape ==> final(self).should_delete_spec(),
            key != LaunchKey::Escape ==> final(self).should_delete_spec() == old(self).should_delete_spec(),
    {
        let n = self.listed_apps().len();
        match key {
            LaunchKey::ArrowUp => {
                if self.scrollpos == 0 {
                    return LaunchAction::Stay;
                }
                self.scrollpos = self.scrollpos - 1;
                LaunchAction::Focus
            },
            LaunchKey::ArrowDown => {
                if n == 0 || self.scrollpos >= n - 1 {
                    return LaunchAction::Stay;
                }
                self.scrollpos = self.scrollpos + 1;
                LaunchAction::Focus
            },
            LaunchKey::Escape => {
                self.should_delete = true;
                LaunchAction::Close
            },
            LaunchKey::Other => LaunchAction::Focus,
        }
    }
}

} // verus!
