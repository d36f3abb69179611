//! What the command-line driver decides: the names of the files that it
//! writes.

use rand::seq::SliceRandom;
use vstd::prelude::*;
use vstd::string::*;
use vstd::utf8::*;
use crate::text::{all_ascii, ascii_string, push_str};

verus! {

/// `rand::rngs::ThreadRng`, the random number generator of a thread. It is
/// only handed on; nothing is known of what it holds.
#[verifier::external_type_specification]
#[verifier::external_body]
pub struct ExThreadRng(rand::rngs::ThreadRng);

/// `rand::thread_rng`: the generator of the current thread. Nothing is
/// claimed of it.
pub assume_specification[ rand::thread_rng ]() -> rand::rngs::ThreadRng
;

/// `SliceRandom::choose_multiple` on a slice of bytes, collected: `amount`
/// bytes of `source`, or all of them where there are fewer, taken at
/// indices of which none is taken twice, in some order. The source is no
/// longer than 32 bits can count: beyond that the sampling asserts that
/// fewer bytes are asked for than there are.
#[verifier::external_body]
fn choose_multiple(source: &[u8], rng: &mut rand::rngs::ThreadRng, amount: usize) -> (picked: Vec<
    u8,
>)
    requires
        source@.len() <= u32::MAX,
    ensures
        picked@.len() == if amount <= source@.len() {
            amount as int
        } else {
            source@.len() as int
        },
        exists|at: Seq<int>|
            #![trigger at.len()]
            {
                &&& at.len() == picked@.len()
                &&& at.no_duplicates()
                &&& forall|i: int|
                    0 <= i < at.len() ==> 0 <= #[trigger] at[i] < source@.len()
                        && picked@[i] == source@[at[i]]
            },
{
    source.choose_multiple(rng, amount).cloned().collect()
}

/// The characters of which random names are made: the letters and the
/// digits.
pub open spec fn alphabet() -> Seq<char> {
    "ABCDEFGHIJKLMNOPQRSTUVWXYZabcdefghijklmnopqrstuvwxyz0123456789"@
}

/// The alphabet holds no character twice.
pub proof fn lemma_alphabet_distinct()
    ensures
        alphabet().len() == 62,
        alphabet().no_duplicates(),
        forall|i: int| 0 <= i < 62 ==> '\0' <= #[trigger] alphabet()[i] <= '\u{7f}',
{
    reveal_strlit("ABCDEFGHIJKLMNOPQRSTUVWXYZabcdefghijklmnopqrstuvwxyz0123456789");
    assert(alphabet()[0] == 'A');
    assert(alphabet()[1] == 'B');
    assert(alphabet()[2] == 'C');
    assert(alphabet()[3] == 'D');
    assert(alphabet()[4] == 'E');
    assert(alphabet()[5] == 'F');
    assert(alphabet()[6] == 'G');
    assert(alphabet()[7] == 'H');
    assert(alphabet()[8] == 'I');
    assert(alphabet()[9] == 'J');
    assert(alphabet()[10] == 'K');
    assert(alphabet()[11] == 'L');
    assert(alphabet()[12] == 'M');
    assert(alphabet()[13] == 'N');
    assert(alphabet()[14] == 'O');
    assert(alphabet()[15] == 'P');
    assert(alphabet()[16] == 'Q');
    assert(alphabet()[17] == 'R');
    assert(alphabet()[18] == 'S');
    assert(alphabet()[19] == 'T');
    assert(alphabet()[20] == 'U');
    assert(alphabet()[21] == 'V');
    assert(alphabet()[22] == 'W');
    assert(alphabet()[23] == 'X');
    assert(alphabet()[24] == 'Y');
    assert(alphabet()[25] == 'Z');
    assert(alphabet()[26] == 'a');
    assert(alphabet()[27] == 'b');
    assert(alphabet()[28] == 'c');
    assert(alphabet()[29] == 'd');
    assert(alphabet()[30] == 'e');
    assert(alphabet()[31] == 'f');
    assert(alphabet()[32] == 'g');
    assert(alphabet()[33] == 'h');
    assert(alphabet()[34] == 'i');
    assert(alphabet()[35] == 'j');
    assert(alphabet()[36] == 'k');
    assert(alphabet()[37] == 'l');
    assert(alphabet()[38] == 'm');
    assert(alphabet()[39] == 'n');
    assert(alphabet()[40] == 'o');
    assert(alphabet()[41] == 'p');
    assert(alphabet()[42] == 'q');
    assert(alphabet()[43] == 'r');
    assert(alphabet()[44] == 's');
    assert(alphabet()[45] == 't');
    assert(alphabet()[46] == 'u');
    assert(alphabet()[47] == 'v');
    assert(alphabet()[48] == 'w');
    assert(alphabet()[49] == 'x');
    assert(alphabet()[50] == 'y');
    assert(alphabet()[51] == 'z');
    assert(alphabet()[52] == '0');
    assert(alphabet()[53] == '1');
    assert(alphabet()[54] == '2');
    assert(alphabet()[55] == '3');
    assert(alphabet()[56] == '4');
    assert(alphabet()[57] == '5');
    assert(alphabet()[58] == '6');
    assert(alphabet()[59] == '7');
    assert(alphabet()[60] == '8');
    assert(alphabet()[61] == '9');
    assert forall|i: int, j: int| 0 <= i < 62 && 0 <= j < 62 && i != j implies alphabet()[i]
        != alphabet()[j] by {
        let code = |k: int| -> int
            {
                if k < 26 {
                    65 + k
                } else if k < 52 {
                    97 + k - 26
                } else {
                    48 + k - 52
                }
            };
        assert(forall|k: int| 0 <= k < 62 ==> #[trigger] alphabet()[k] as int == code(k));
    }
}

/// A random string of `len` characters of the alphabet, or of all 62 where
/// `len` is larger. Two calls may give different strings; every one of them
/// is made of letters and digits, each at most once.
pub fn random_string(len: usize) -> (name: String)
    ensures
        name@.len() == if len <= 62 {
            len as int
        } else {
            62
        },
        forall|i: int| 0 <= i < name@.len() ==> alphabet().contains(#[trigger] name@[i]),
        name@.no_duplicates(),
{
    let source = "ABCDEFGHIJKLMNOPQRSTUVWXYZabcdefghijklmnopqrstuvwxyz0123456789".as_bytes();
    proof {
        lemma_alphabet_distinct();
        assert(is_ascii_chars(alphabet()));
        is_ascii_chars_encode_utf8(alphabet());
    }
    let mut rng = rand::thread_rng();
    let picked = choose_multiple(source, &mut rng, len);
    let ghost at = choose|at: Seq<int>|
        #![trigger at.len()]
        {
            &&& at.len() == picked@.len()
            &&& at.no_duplicates()
            &&& forall|i: int|
                0 <= i < at.len() ==> 0 <= #[trigger] at[i] < source@.len() && picked@[i]
                    == source@[at[i]]
        };
    proof {
        let whole = picked@.subrange(0, picked@.len() as int);
        assert(whole =~= picked@);
        assert forall|i: int| 0 <= i < picked@.len() implies #[trigger] picked@[i] < 128
            && alphabet().contains(picked@[i] as char) by {
            let j = at[i];
            assert(alphabet()[j] as u8 == source@[j]);
            assert(picked@[i] == source@[j]);
            assert(picked@[i] as char == alphabet()[j]);
        }
        assert(all_ascii(whole));
    }
    let name = ascii_string(picked.as_slice(), 0, picked.len());
    assert forall|i: int| 0 <= i < name@.len() implies alphabet().contains(#[trigger] name@[i])
        && name@[i] == alphabet()[at[i]] by {
        assert(name@[i] == picked@[i] as char);
        assert(picked@[i] < 128);
        assert(alphabet()[at[i]] as u8 == source@[at[i]]);
    }
    assert forall|i: int, j: int| 0 <= i < name@.len() && 0 <= j < name@.len() && i != j implies name@[i]
        != name@[j] by {
        assert(name@[i] == alphabet()[at[i]]);
        assert(name@[j] == alphabet()[at[j]]);
        assert(at[i] != at[j]);
    }
    name
}

/// The name of the temporary listing with the tag `tag`.
pub open spec fn temp_name_of(tag: Seq<char>) -> Seq<char> {
    "tmp"@ + tag + ".s"@
}

/// The name of the temporary listing with the tag `tag`.
pub fn temp_name(tag: &str) -> (name: String)
    ensures
        name@ == temp_name_of(tag@),
{
    let mut name = String::new();
    push_str(&mut name, "tmp");
    push_str(&mut name, tag);
    push_str(&mut name, ".s");
    assert(name@ =~= temp_name_of(tag@));
    name
}

/// A name for the temporary listing: `tmp`, eight random letters and
/// digits, and `.s`.
pub fn temp_file_name() -> (name: String)
    ensures
        exists|tag: Seq<char>|
            #![trigger temp_name_of(tag)]
            {
                &&& name@ == temp_name_of(tag)
                &&& tag.len() == 8
                &&& forall|i: int| 0 <= i < 8 ==> alphabet().contains(#[trigger] tag[i])
            },
{
    let tag = random_string(8);
    temp_name(tag.as_str())
}

/// The name of the file to write: the name asked for, else the stem of the
/// input's name, with `.s` where the listing is kept.
pub open spec fn output_name_of(asked: Option<Seq<char>>, stem: Seq<char>, asm_out: bool) -> Seq<
    char,
> {
    match asked {
        Some(name) => name,
        None => if asm_out {
            stem + ".s"@
        } else {
            stem
        },
    }
}

/// The name of the file to write.
pub fn output_name(asked: Option<String>, stem: &str, asm_out: bool) -> (name: String)
    ensures
        name@ == output_name_of(
            match asked {
                Some(s) => Some(s@),
                None => None,
            },
            stem@,
            asm_out,
        ),
{
    match asked {
        Some(s) => s,
        None => {
            let mut name = stem.to_owned();
            if asm_out {
                push_str(&mut name, ".s");
            }
            name
        },
    }
}

} // verus!
