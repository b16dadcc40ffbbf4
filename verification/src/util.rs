use vstd::prelude::*;
use vstd::string::StringSliceAdditionalSpecFns;
use vstd::utf8::is_char_boundary;

verus! {

/// A position where a diagnostic type name can be shortened: a `::` with no
/// `<` anywhere before it, so that it separates path segments of the outermost
/// type rather than of one of its type arguments.
pub open spec fn is_cut(bytes: Seq<u8>, j: int) -> bool {
    &&& 0 <= j
    &&& j + 2 <= bytes.len()
    &&& bytes[j] == 58u8
    &&& bytes[j + 1] == 58u8
    &&& forall|a: int| 0 <= a < j ==> bytes[a] != 60u8
}

/// The cut the shortener uses: the last one.
pub open spec fn is_chosen_cut(bytes: Seq<u8>, j: int) -> bool {
    is_cut(bytes, j) && forall|j2: int| #[trigger] is_cut(bytes, j2) ==> j2 <= j
}

/// Strips the leading path segments from a diagnostic type name: everything
/// up to and including the last `::` that comes before the first `<`, so that
/// `alloc::vec::Vec<core::option::Option<u8>>` becomes
/// `Vec<core::option::Option<u8>>`.  A name without such a separator is
/// returned whole.
pub fn short_type_name<'a>(s: &'a str) -> (r: &'a str)
    ensures
        forall|j: int|
            #[trigger] is_chosen_cut(s.spec_bytes(), j) && is_char_boundary(s.spec_bytes(), j + 2)
                ==> r.spec_bytes() == s.spec_bytes().subrange(j + 2, s.spec_bytes().len() as int),
        !(exists|j: int|
            #[trigger] is_chosen_cut(s.spec_bytes(), j) && is_char_boundary(
                s.spec_bytes(),
                j + 2,
            )) ==> r == s,
{
    let bytes = s.as_bytes();
    let n = bytes.len();
    let mut i: usize = 0;
    while i < n && bytes[i] != 60
        invariant
            n == bytes@.len(),
            0 <= i <= n,
            forall|a: int| 0 <= a < i ==> bytes@[a] != 60u8,
        decreases n - i,
    {
        i += 1;
    }
    let lim = i;
    let ghost gb = bytes@;
    let mut cut: Option<usize> = None;
    let mut j: usize = 0;
    while j < lim && n - j >= 2
        invariant
            n == gb.len(),
            gb == bytes@,
            gb == s.spec_bytes(),
            0 <= j <= n,
            lim <= n,
            lim == n || (lim < n && gb[lim as int] == 60u8),
            forall|a: int| 0 <= a < lim ==> gb[a] != 60u8,
            match cut {
                None => forall|j2: int| 0 <= j2 < j ==> !is_cut(gb, j2),
                Some(c) => is_cut(gb, c as int) && c < j && forall|j2: int|
                    c < j2 < j ==> !is_cut(gb, j2),
            },
        decreases lim - j,
    {
        if bytes[j] == 58 && bytes[j + 1] == 58 {
            proof {
                assert(is_cut(gb, j as int));
            }
            cut = Some(j);
        }
        j += 1;
    }
    proof {
        assert forall|j2: int| is_cut(gb, j2) implies j2 < j by {
            if j2 >= j {
                assert(j2 + 2 <= n);
                if j >= lim {
                    if lim < n {
                        if j2 == lim {
                            assert(gb[j2] == 58u8);
                        } else {
                            assert(gb[lim as int] != 60u8);
                        }
                    }
                } else {
                    assert(n - j < 2);
                }
            }
        }
    }
    match cut {
        Some(c) => {
            if s.is_char_boundary(c + 2) {
                proof {
                    assert(is_chosen_cut(gb, c as int));
                }
                let (_, tail) = s.split_at(c + 2);
                proof {
                    assert forall|j2: int|
                        #[trigger] is_chosen_cut(s.spec_bytes(), j2) && is_char_boundary(
                            s.spec_bytes(),
                            j2 + 2,
                        ) implies tail.spec_bytes() == s.spec_bytes().subrange(
                        j2 + 2,
                        s.spec_bytes().len() as int,
                    ) by {
                        assert(j2 == c as int);
                    }
                }
                tail
            } else {
                proof {
                    assert forall|j2: int|
                        is_chosen_cut(gb, j2) implies j2 == c as int by {
                        assert(is_cut(gb, c as int));
                    }
                }
                s
            }
        },
        None => {
            s
        },
    }
}

} // verus!
