//! No two tensors of a system have the same name.

use vstd::prelude::*;

verus! {

use crate::audit::layer_name;
use crate::decimal::{decimal, decimal_injective};
use crate::init::{system_plan, Fill};

/// The prefixes of the names of a layer's tensors.
pub open spec fn layer_prefix(j: int) -> Seq<char> {
    if j == 0 {
        "w_down_"@
    } else if j == 1 {
        "w_up_"@
    } else if j == 2 {
        "m_base_"@
    } else {
        "gamma_"@
    }
}

/// The names of the tensors that do not belong to a layer.
pub open spec fn fixed_name(i: int) -> Seq<char> {
    if i == 0 {
        "bpe_embeddings"@
    } else if i == 1 {
        "w_fusion"@
    } else if i == 2 {
        "w_phrase"@
    } else if i == 3 {
        "w_in"@
    } else if i == 4 {
        "w_lsh"@
    } else if i == 5 {
        "w_out"@
    } else if i == 6 {
        "output_embeddings"@
    } else {
        "output_bias"@
    }
}

/// The first and the third character of a name; they tell all names apart but
/// those of the two output tensors.
spec fn marks(name: Seq<char>) -> (char, char) {
    (name[0], name[2])
}

proof fn fixed_marks(i: int)
    requires
        0 <= i < 8,
    ensures
        fixed_name(i).len() >= 4,
        marks(fixed_name(i)) == (if i == 0 {
            ('b', 'e')
        } else if i == 1 {
            ('w', 'f')
        } else if i == 2 {
            ('w', 'p')
        } else if i == 3 {
            ('w', 'i')
        } else if i == 4 {
            ('w', 'l')
        } else if i == 5 {
            ('w', 'o')
        } else {
            ('o', 't')
        }),
        i == 6 ==> fixed_name(i).len() == 17,
        i == 7 ==> fixed_name(i).len() == 11,
{
    reveal_strlit("bpe_embeddings");
    reveal_strlit("w_fusion");
    reveal_strlit("w_phrase");
    reveal_strlit("w_in");
    reveal_strlit("w_lsh");
    reveal_strlit("w_out");
    reveal_strlit("output_embeddings");
    reveal_strlit("output_bias");
}

proof fn layer_marks(j: int, l: nat)
    requires
        0 <= j < 4,
    ensures
        layer_prefix(j).len() >= 3,
        marks(layer_name(layer_prefix(j), l)) == (if j == 0 {
            ('w', 'd')
        } else if j == 1 {
            ('w', 'u')
        } else if j == 2 {
            ('m', 'b')
        } else {
            ('g', 'm')
        }),
{
    reveal_strlit("w_down_");
    reveal_strlit("w_up_");
    reveal_strlit("m_base_");
    reveal_strlit("gamma_");
    let p = layer_prefix(j);
    assert(layer_name(p, l)[0] == p[0]);
    assert(layer_name(p, l)[2] == p[2]);
}

/// The names of tensors outside the layers differ.
pub proof fn fixed_names_differ(i: int, k: int)
    requires
        0 <= i < 8,
        0 <= k < 8,
        i != k,
    ensures
        fixed_name(i) != fixed_name(k),
{
    fixed_marks(i);
    fixed_marks(k);
}

/// The name of a layer's tensor is that of no tensor outside the layers.
pub proof fn fixed_and_layer_names_differ(i: int, j: int, l: nat)
    requires
        0 <= i < 8,
        0 <= j < 4,
    ensures
        fixed_name(i) != layer_name(layer_prefix(j), l),
{
    fixed_marks(i);
    layer_marks(j, l);
}

/// The names of different tensors of layers differ.
pub proof fn layer_names_differ(j: int, l: nat, k: int, m: nat)
    requires
        0 <= j < 4,
        0 <= k < 4,
        j != k || l != m,
    ensures
        layer_name(layer_prefix(j), l) != layer_name(layer_prefix(k), m),
{
    layer_marks(j, l);
    layer_marks(k, m);
    if j == k && layer_name(layer_prefix(j), l) == layer_name(layer_prefix(k), m) {
        let p = layer_prefix(j);
        assert(layer_name(p, l).skip(p.len() as int) =~= decimal(l));
        assert(layer_name(p, m).skip(p.len() as int) =~= decimal(m));
        decimal_injective(l, m);
    }
}

/// No two tensors of a new system have the same name.
pub proof fn plan_names_differ(lsh_k: usize, n: nat, bias: Fill, i: int, k: int)
    requires
        0 <= i < k < 8 + 4 * n,
    ensures
        system_plan(lsh_k, n, bias)[i].name != system_plan(lsh_k, n, bias)[k].name,
{
    let plan = system_plan(lsh_k, n, bias);
    if k < 8 {
        assert(plan[i].name == fixed_name(i) && plan[k].name == fixed_name(k));
        fixed_names_differ(i, k);
    } else {
        let m = ((k - 8) / 4) as nat;
        let b = (k - 8) % 4;
        assert(plan[k].name == layer_name(layer_prefix(b), m));
        if i < 8 {
            assert(plan[i].name == fixed_name(i));
            fixed_and_layer_names_differ(i, b, m);
        } else {
            let l = ((i - 8) / 4) as nat;
            let a = (i - 8) % 4;
            assert(plan[i].name == layer_name(layer_prefix(a), l));
            layer_names_differ(a, l, b, m);
        }
    }
}

} // verus!
