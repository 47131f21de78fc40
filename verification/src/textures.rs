//! The staging step of array-texture creation.
//!
//! An array texture is created from several image layers.  When more than
//! one layer is given, the device upload wants one dense staging buffer
//! holding the layers in order, and every layer must have the same byte
//! length.  The packing and the length check are computed here; handing
//! the staged bytes to the device is the caller's edge.

use vstd::prelude::*;

verus! {

/// The layers packed densely in order.
pub open spec fn flatten_layers(ls: Seq<Seq<u8>>) -> Seq<u8>
    decreases ls.len(),
{
    if ls.len() == 0 {
        Seq::empty()
    } else {
        ls[0] + flatten_layers(ls.drop_first())
    }
}

/// Every layer has the byte length of the first.
pub open spec fn uniform_layer_len(ls: Seq<Seq<u8>>) -> bool {
    forall|i: int| 0 <= i < ls.len() ==> (#[trigger] ls[i]).len() == ls[0].len()
}

/// Packing one more layer at the back appends its bytes.
pub proof fn lemma_flatten_layers_snoc(ls: Seq<Seq<u8>>, x: Seq<u8>)
    ensures
        flatten_layers(ls.push(x)) == flatten_layers(ls) + x,
    decreases ls.len(),
{
    let p = ls.push(x);
    if ls.len() == 0 {
        assert(p[0] == x);
        assert(p.drop_first() =~= Seq::<Seq<u8>>::empty());
        assert(flatten_layers(Seq::<Seq<u8>>::empty()) == Seq::<u8>::empty());
        assert(flatten_layers(p) == p[0] + flatten_layers(p.drop_first()));
        assert(flatten_layers(p) =~= flatten_layers(ls) + x);
    } else {
        assert(p[0] == ls[0]);
        assert(p.drop_first() =~= ls.drop_first().push(x));
        lemma_flatten_layers_snoc(ls.drop_first(), x);
        assert(flatten_layers(p) == p[0] + flatten_layers(p.drop_first()));
        assert(flatten_layers(ls) == ls[0] + flatten_layers(ls.drop_first()));
        assert(flatten_layers(p) =~= flatten_layers(ls) + x);
    }
}

/// The layers as byte sequences.
pub open spec fn layer_views(layers: Seq<Vec<u8>>) -> Seq<Seq<u8>> {
    layers.map_values(|v: Vec<u8>| v@)
}

/// Stages the image layers of an array texture: returns the layers packed
/// densely in order if they all have the same byte length, and nothing
/// otherwise.
pub fn concat_layers(layers: &Vec<Vec<u8>>) -> (r: Option<Vec<u8>>)
    ensures
        r is Some <==> uniform_layer_len(layer_views(layers@)),
        r is Some ==> r.unwrap()@ == flatten_layers(layer_views(layers@)),
{
    let n = layers.len();
    let mut i: usize = 0;
    if n > 0 {
        let first_len = layers[0].len();
        while i < n
            invariant
                n == layers@.len(),
                n > 0,
                i <= n,
                first_len == layer_views(layers@)[0].len(),
                forall|j: int|
                    0 <= j < i ==> (#[trigger] layer_views(layers@)[j]).len() == first_len,
            decreases n - i,
        {
            if layers[i].len() != first_len {
                proof {
                    assert(layer_views(layers@)[i as int] == layers@[i as int]@);
                    assert(layer_views(layers@)[i as int].len() != layer_views(layers@)[0].len());
                }
                return None;
            }
            i += 1;
        }
    }
    let mut out: Vec<u8> = Vec::new();
    let mut k: usize = 0;
    while k < n
        invariant
            n == layers@.len(),
            k <= n,
            uniform_layer_len(layer_views(layers@)),
            out@ == flatten_layers(layer_views(layers@).take(k as int)),
        decreases n - k,
    {
        proof {
            lemma_flatten_layers_snoc(
                layer_views(layers@).take(k as int),
                layer_views(layers@)[k as int],
            );
            assert(layer_views(layers@).take(k + 1) =~= layer_views(layers@).take(k as int).push(
                layer_views(layers@)[k as int],
            ));
        }
        let m = layers[k].len();
        let mut b: usize = 0;
        while b < m
            invariant
                n == layers@.len(),
                k < n,
                m == layer_views(layers@)[k as int].len(),
                b <= m,
                out@ == flatten_layers(layer_views(layers@).take(k as int)) + layer_views(
                    layers@,
                )[k as int].take(b as int),
            decreases m - b,
        {
            let byte = layers[k][b];
            out.push(byte);
            b += 1;
            proof {
                assert(out@ =~= flatten_layers(layer_views(layers@).take(k as int)) + layer_views(
                    layers@,
                )[k as int].take(b as int));
            }
        }
        k += 1;
        proof {
            assert(layer_views(layers@)[k - 1].take(m as int) =~= layer_views(layers@)[k - 1]);
            assert(out@ =~= flatten_layers(layer_views(layers@).take(k as int)));
        }
    }
    proof {
        assert(layer_views(layers@).take(n as int) =~= layer_views(layers@));
    }
    Some(out)
}

} // verus!
