//! [Storage] impl: layered variable storage.

use vstd::prelude::*;

use crate::array_expr::error::{Error, ErrorV};
use crate::array_expr::value::ValueV;
use crate::array_expr::value_array::ValueArray;
use crate::text::{chars_eq, chars_of, string_from_chars};

verus! {

/// One layer of variables: keys with their arrays.
pub type LayerV = Seq<(Seq<char>, Seq<ValueV>)>;

/// Storage as mathematics sees it: layers, the first holding the globals, the last
/// being the innermost local scope.
pub type StorageV = Seq<LayerV>;

/// Index of the first entry of a layer with the given key.
pub open spec fn layer_index(layer: LayerV, key: Seq<char>) -> Option<int>
    decreases layer.len(),
{
    if layer.len() == 0 {
        None
    } else if layer[0].0 == key {
        Some(0)
    } else {
        match layer_index(layer.drop_first(), key) {
            Some(i) => Some(i + 1),
            None => None,
        }
    }
}

/// Value of a key in a layer.
pub open spec fn layer_get(layer: LayerV, key: Seq<char>) -> Option<Seq<ValueV>> {
    match layer_index(layer, key) {
        Some(i) => Some(layer[i].1),
        None => None,
    }
}

/// A layer with the key set to the given array, replacing an existing entry.
pub open spec fn layer_set(layer: LayerV, key: Seq<char>, values: Seq<ValueV>) -> LayerV {
    match layer_index(layer, key) {
        Some(i) => layer.update(i, (key, values)),
        None => layer.push((key, values)),
    }
}

/// Value of a key: the innermost layer that has it decides.
pub open spec fn storage_get(st: StorageV, key: Seq<char>) -> Option<Seq<ValueV>>
    decreases st.len(),
{
    if st.len() == 0 {
        None
    } else {
        match layer_get(st.last(), key) {
            Some(v) => Some(v),
            None => storage_get(st.drop_last(), key),
        }
    }
}

/// Storage with a global variable set.
pub open spec fn storage_set_global(st: StorageV, key: Seq<char>, values: Seq<ValueV>) -> StorageV {
    if st.len() == 0 {
        seq![layer_set(Seq::empty(), key, values)]
    } else {
        st.update(0, layer_set(st[0], key, values))
    }
}

/// Storage with a variable set in the innermost layer.
pub open spec fn storage_set_local(st: StorageV, key: Seq<char>, values: Seq<ValueV>) -> StorageV {
    if st.len() == 0 {
        seq![layer_set(Seq::empty(), key, values)]
    } else {
        st.update(st.len() - 1, layer_set(st.last(), key, values))
    }
}

/// What [Storage::try_get] gives: the array, or a missing variable error.
pub open spec fn storage_try_get(st: StorageV, key: Seq<char>) -> Result<Seq<ValueV>, ErrorV> {
    match storage_get(st, key) {
        Some(v) => Ok(v),
        None => Err(ErrorV::NoVar(key)),
    }
}

/// One layer of variables.
#[derive(Debug)]
struct Layer {
    entries: Vec<(Vec<char>, ValueArray)>,
}

impl View for Layer {
    type V = LayerV;

    closed spec fn view(&self) -> LayerV {
        self.entries@.map_values(|e: (Vec<char>, ValueArray)| (e.0@, e.1@))
    }
}

impl Layer {
    fn find(&self, key: &[char]) -> (r: Option<usize>)
        ensures
            match r {
                Some(i) => layer_index(self@, key@) == Some(i as int) && i < self@.len(),
                None => layer_index(self@, key@) is None,
            },
    {
        let mut i: usize = 0;
        assert(self@.subrange(0, self@.len() as int) =~= self@);
        while i < self.entries.len()
            invariant
                i <= self.entries@.len(),
                layer_index(self@, key@) == match layer_index(self@.subrange(i as int, self@.len() as int), key@) {
                    Some(k) => Some(k + i),
                    None => None::<int>,
                },
            decreases self.entries@.len() - i,
        {
            let ghost rest = self@.subrange(i as int, self@.len() as int);
            assert(rest.drop_first() =~= self@.subrange(i + 1, self@.len() as int));
            assert(rest[0] == self@[i as int]);
            if chars_eq(self.entries[i].0.as_slice(), key) {
                return Some(i);
            }
            i = i + 1;
        }
        None
    }

    fn set(&mut self, key: &[char], values: ValueArray)
        ensures
            final(self)@ == layer_set(old(self)@, key@, values@),
    {
        match self.find(key) {
            Some(i) => {
                let mut k: Vec<char> = Vec::new();
                crate::text::push_all(&mut k, key);
                let ghost vv = values@;
                self.entries.set(i, (k, values));
                assert(self@ =~= old(self)@.update(i as int, (key@, vv)));
            },
            None => {
                let mut k: Vec<char> = Vec::new();
                crate::text::push_all(&mut k, key);
                let ghost vv = values@;
                self.entries.push((k, values));
                assert(self@ =~= old(self)@.push((key@, vv)));
            },
        }
    }
}

/// Variable storage: a layer of globals and a stack of local layers.
#[derive(Debug)]
pub struct Storage {
    layers: Vec<Layer>,
}

impl View for Storage {
    type V = StorageV;

    closed spec fn view(&self) -> StorageV {
        self.layers@.map_values(|l: Layer| l@)
    }
}

impl Storage {
    /// There is always the layer of globals.
    #[verifier::type_invariant]
    spec fn has_globals(&self) -> bool {
        self.layers@.len() >= 1
    }

    /// Take the layers out, leaving one empty layer behind until they are put back.
    fn take_layers(&mut self) -> (r: Vec<Layer>)
        ensures
            r@ == old(self).layers@,
            r@.len() >= 1,
    {
        proof {
            use_type_invariant(&*self);
        }
        let mut layers = Vec::new();
        layers.push(Layer { entries: Vec::new() });
        std::mem::swap(&mut layers, &mut self.layers);
        layers
    }

    /// Storage with an empty global layer.
    pub fn initial() -> (r: Self)
        ensures
            r@ == seq![Seq::<(Seq<char>, Seq<ValueV>)>::empty()],
    {
        let mut layers = Vec::new();
        let l = Layer { entries: Vec::new() };
        assert(l@ =~= Seq::<(Seq<char>, Seq<ValueV>)>::empty());
        layers.push(l);
        let r = Storage { layers };
        assert(r@ =~= seq![Seq::<(Seq<char>, Seq<ValueV>)>::empty()]);
        r
    }

    /// Add an empty local layer.
    pub fn push_layer(&mut self)
        ensures
            final(self)@ == old(self)@.push(Seq::empty()),
    {
        proof {
            use_type_invariant(&*self);
        }
        let l = Layer { entries: Vec::new() };
        assert(l@ =~= Seq::<(Seq<char>, Seq<ValueV>)>::empty());
        let mut layers = self.take_layers();
        layers.push(l);
        self.layers = layers;
        assert(self@ =~= old(self)@.push(Seq::empty()));
    }

    /// Remove the innermost layer, if any other than the globals is there.
    pub fn pop_layer(&mut self)
        ensures
            old(self)@.len() > 1 ==> final(self)@ == old(self)@.drop_last(),
            old(self)@.len() <= 1 ==> final(self)@ == old(self)@,
    {
        if self.layers.len() > 1 {
            let mut layers = self.take_layers();
            layers.pop();
            self.layers = layers;
            assert(self@ =~= old(self)@.drop_last());
        }
    }

    /// Number of layers, the globals among them.
    pub fn depth(&self) -> (r: usize)
        ensures
            r == self@.len(),
            r >= 1,
    {
        proof {
            use_type_invariant(self);
        }
        self.layers.len()
    }

    /// Get the array of a variable.
    pub fn try_get(&self, key: &[char]) -> (r: Result<ValueArray, Error>)
        ensures
            match r {
                Ok(v) => storage_try_get(self@, key@) == Ok::<Seq<ValueV>, ErrorV>(v@),
                Err(e) => storage_try_get(self@, key@) == Err::<Seq<ValueV>, ErrorV>(e@),
            },
    {
        let mut i: usize = self.layers.len();
        assert(self@.subrange(0, self@.len() as int) =~= self@);
        while i > 0
            invariant
                i <= self@.len(),
                self@.len() == self.layers@.len(),
                storage_get(self@, key@) == storage_get(self@.subrange(0, i as int), key@),
            decreases i,
        {
            let ghost pre = self@.subrange(0, i as int);
            assert(pre.drop_last() =~= self@.subrange(0, i - 1));
            assert(pre.last() == self.layers@[i - 1]@);
            match self.layers[i - 1].find(key) {
                Some(k) => {
                    return Ok(self.layers[i - 1].entries[k].1.clone_array());
                },
                None => {},
            }
            i = i - 1;
        }
        Err(Error::NoVar(string_from_chars(key)))
    }

    /// Move the globals out into a storage of their own with one empty local layer,
    /// leaving an empty layer in their place.
    pub fn split_globals(&mut self) -> (r: Storage)
        ensures
            final(self)@ == old(self)@.update(0, Seq::empty()),
            r@ == seq![old(self)@[0], Seq::<(Seq<char>, Seq<ValueV>)>::empty()],
    {
        proof {
            use_type_invariant(&*self);
        }
        let mut layers = self.take_layers();
        let empty = Layer { entries: Vec::new() };
        assert(empty@ =~= Seq::<(Seq<char>, Seq<ValueV>)>::empty());
        let g = layers.remove(0);
        layers.insert(0, empty);
        self.layers = layers;
        assert(self@ =~= old(self)@.update(0, Seq::empty()));
        let mut layers = Vec::new();
        layers.push(g);
        let l = Layer { entries: Vec::new() };
        assert(l@ =~= Seq::<(Seq<char>, Seq<ValueV>)>::empty());
        layers.push(l);
        let r = Storage { layers };
        assert(r@ =~= seq![old(self)@[0], Seq::<(Seq<char>, Seq<ValueV>)>::empty()]);
        r
    }

    /// Put back the globals of a storage made by [Storage::split_globals].
    pub fn restore_globals(&mut self, other: Storage)
        ensures
            final(self)@ == old(self)@.update(0, other@[0]),
    {
        proof {
            use_type_invariant(&*self);
            use_type_invariant(&other);
        }
        let ghost g = other@[0];
        let mut other = other;
        let mut theirs = other.take_layers();
        let l = theirs.remove(0);
        assert(l@ == g);
        let mut layers = self.take_layers();
        layers.set(0, l);
        self.layers = layers;
        assert(self@ =~= old(self)@.update(0, g));
    }

    /// Set a global variable.
    pub fn set_global(&mut self, key: &[char], values: ValueArray)
        ensures
            final(self)@ == storage_set_global(old(self)@, key@, values@),
    {
        proof {
            use_type_invariant(&*self);
        }
        let ghost vv = values@;
        let mut layers = self.take_layers();
        let mut l = layers.remove(0);
        l.set(key, values);
        layers.insert(0, l);
        self.layers = layers;
        assert(self@ =~= storage_set_global(old(self)@, key@, vv));
    }

    /// Set a variable in the innermost layer.
    pub fn set_local(&mut self, key: &[char], values: ValueArray)
        ensures
            final(self)@ == storage_set_local(old(self)@, key@, values@),
    {
        proof {
            use_type_invariant(&*self);
        }
        let ghost vv = values@;
        let mut layers = self.take_layers();
        let mut l = layers.pop().unwrap();
        l.set(key, values);
        layers.push(l);
        self.layers = layers;
        assert(self@ =~= storage_set_local(old(self)@, key@, vv));
    }
}

} // verus!
