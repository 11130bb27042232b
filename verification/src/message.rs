//! How lexing and parsing errors are written: what was found, and what was expected.
use vstd::prelude::*;

verus! {

/// `found ` and what was found: a quoted character or token, or the end of the input.
pub open spec fn found_text(what: Option<Seq<char>>) -> Seq<char> {
    seq!['f', 'o', 'u', 'n', 'd', ' '] + match what {
        Some(w) => seq!['\''] + w + seq!['\''],
        None => seq!['e', 'n', 'd', ' ', 'o', 'f', ' ', 'i', 'n', 'p', 'u', 't'],
    }
}

/// Each item followed by `, `.
pub open spec fn items_text(items: Seq<Seq<char>>) -> Seq<char>
    decreases items.len(),
{
    if items.len() == 0 {
        Seq::empty()
    } else {
        items_text(items.drop_last()) + items.last() + seq![',', ' ']
    }
}

/// The items as a list: `something else` when there is none, `a` for one, and
/// `a, b, or c` for more.
pub open spec fn list_text(items: Seq<Seq<char>>) -> Seq<char> {
    if items.len() == 0 {
        seq!['s', 'o', 'm', 'e', 't', 'h', 'i', 'n', 'g', ' ', 'e', 'l', 's', 'e']
    } else if items.len() == 1 {
        items[0]
    } else {
        items_text(items.drop_last()) + seq!['o', 'r', ' '] + items.last()
    }
}

/// The strings as mathematical values.
pub open spec fn strings_view(v: Seq<String>) -> Seq<Seq<char>> {
    v.map_values(|s: String| s@)
}

/// Writes the items as a list (see [`list_text`]).
pub fn list_message(items: &Vec<String>) -> (r: String)
    ensures
        r@ == list_text(strings_view(items@)),
{
    let ghost iv = strings_view(items@);
    if items.len() == 0 {
        let r = String::from_str("something else");
        proof {
            reveal_strlit("something else");
            assert(r@ =~= list_text(iv));
        }
        return r;
    }
    if items.len() == 1 {
        return items[0].clone();
    }
    let n = items.len() - 1;
    let mut r = String::new();
    let mut i: usize = 0;
    proof {
        assert(iv.take(0) =~= Seq::<Seq<char>>::empty());
        assert(r@ =~= items_text(iv.take(0)));
    }
    while i < n
        invariant
            n == items@.len() - 1,
            iv == strings_view(items@),
            i <= n,
            r@ == items_text(iv.take(i as int)),
        decreases n - i,
    {
        proof {
            assert(iv.take(i + 1).drop_last() =~= iv.take(i as int));
            assert(iv.take(i + 1).last() == iv[i as int]);
        }
        r.append(items[i].as_str());
        r.append(", ");
        proof {
            reveal_strlit(", ");
            assert(r@ =~= items_text(iv.take(i + 1)));
        }
        i = i + 1;
    }
    r.append("or ");
    r.append(items[n].as_str());
    proof {
        reveal_strlit("or ");
        assert(iv.take(n as int) =~= iv.drop_last());
        assert(r@ =~= list_text(iv));
    }
    r
}

/// Writes what was found (see [`found_text`]).
pub fn found_message(what: Option<String>) -> (r: String)
    ensures
        r@ == found_text(
            match what {
                Some(w) => Some(w@),
                None => None,
            },
        ),
{
    let mut r = String::from_str("found ");
    match what {
        Some(w) => {
            r.append("'");
            r.append(w.as_str());
            r.append("'");
        },
        None => {
            r.append("end of input");
        },
    }
    proof {
        reveal_strlit("found ");
        reveal_strlit("'");
        reveal_strlit("end of input");
        assert(r@ =~= found_text(
            match what {
                Some(w) => Some(w@),
                None => None,
            },
        ));
    }
    r
}

} // verus!
