use vstd::hash_map::StringHashMap;
use vstd::prelude::*;

verus! {

/// Header names mapped to their values; inserting a name again replaces
/// its value.
pub struct Headers {
    map: StringHashMap<String>,
}

impl View for Headers {
    type V = Map<Seq<char>, Seq<char>>;

    closed spec fn view(&self) -> Map<Seq<char>, Seq<char>> {
        self.map@.map_values(|v: String| v@)
    }
}

impl Headers {
    pub fn new() -> (h: Headers)
        ensures
            h@ == Map::<Seq<char>, Seq<char>>::empty(),
    {
        let h = Headers { map: StringHashMap::new() };
        assert(h@ =~= Map::<Seq<char>, Seq<char>>::empty());
        h
    }

    pub fn insert(&mut self, key: String, value: String)
        ensures
            final(self)@ == old(self)@.insert(key@, value@),
    {
        let ghost k = key@;
        let ghost v = value@;
        self.map.insert(key, value);
        assert(self@ =~= old(self)@.insert(k, v));
    }

    pub fn get(&self, key: &str) -> (r: Option<&String>)
        ensures
            match r {
                Some(v) => self@.contains_key(key@) && v@ == self@[key@],
                None => !self@.contains_key(key@),
            },
    {
        self.map.get(key)
    }

    pub fn len(&self) -> (n: usize)
        ensures
            n == self@.len(),
    {
        assert(self@.dom() =~= self.map@.dom());
        self.map.len()
    }

    pub fn is_empty(&self) -> (b: bool)
        ensures
            b == (self@.len() == 0),
    {
        self.len() == 0
    }
}

} // verus!
