use vstd::prelude::*;

verus! {

/// The translation of `key` in `messages`: the text of the first entry with
/// that key, or the key itself when there is none.
pub open spec fn translation(messages: Seq<(String, String)>, key: Seq<char>) -> Seq<char>
    decreases messages.len(),
{
    if messages.len() == 0 {
        key
    } else if messages[0].0@ == key {
        messages[0].1@
    } else {
        translation(messages.drop_first(), key)
    }
}

/// The messages of the selected language, by key.
pub struct Localizer {
    messages: Vec<(String, String)>,
}

impl Localizer {
    /// The message table, in lookup order.
    pub closed spec fn messages_spec(&self) -> Seq<(String, String)> {
        self.messages@
    }

    /// A localizer over `messages`, pairs of key and text.
    pub fn new(messages: Vec<(String, String)>) -> (r: Self)
        ensures
            r.messages_spec() == messages@,
    {
        Localizer { messages }
    }

    /// Whether `key` has a translation.
    pub fn has(&self, key: &str) -> (r: bool)
        ensures
            r == exists|i: int| 0 <= i < self.messages_spec().len() && #[trigger] self.messages_spec()[i].0@ == key@,
    {
        let k = key.to_owned();
        let mut i: usize = 0;
        while i < self.messages.len()
            invariant
                i <= self.messages@.len(),
                k@ == key@,
                forall|j: int| 0 <= j < i ==> #[trigger] self.messages@[j].0@ != key@,
            decreases self.messages@.len() - i,
        {
            if self.messages[i].0 == k {
                proof {
                    assert(self.messages_spec()[i as int].0@ == key@);
                }
                return true;
            }
            i += 1;
        }
        false
    }

    /// The translation of `key`, or `key` itself when it has none.
    pub fn tr(&self, key: &str) -> (r: String)
        ensures
            r@ == translation(self.messages_spec(), key@),
    {
        let k = key.to_owned();
        let mut i: usize = 0;
        assert(self.messages@.skip(0) =~= self.messages@);
        while i < self.messages.len()
            invariant
                i <= self.messages@.len(),
                k@ == key@,
                translation(self.messages@, key@) == translation(self.messages@.skip(i as int), key@),
            decreases self.messages@.len() - i,
        {
            let ghost rest = self.messages@.skip(i as int);
            assert(rest.drop_first() =~= self.messages@.skip(i + 1));
            if self.messages[i].0 == k {
                return self.messages[i].1.clone();
            }
            i += 1;
        }
        k
    }
}

/// Translates `key` with `localizer`, falling back to the key.
pub fn fl(localizer: &Localizer, key: &str) -> (r: String)
    ensures
        r@ == translation(localizer.messages_spec(), key@),
{
    localizer.tr(key)
}

} // verus!
