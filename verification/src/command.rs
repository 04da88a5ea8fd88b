//! The shell command that converts every image with a rotated sidecar file.

use vstd::prelude::*;
use vstd::string::*;

verus! {

/// What each of `names` holds.
pub open spec fn name_views(names: Seq<String>) -> Seq<Seq<char>> {
    Seq::new(names.len(), |i: int| names[i]@)
}

/// How the command begins: the converter, run on several images at once,
/// with the rotated sidecar file of each as its parameters.
pub open spec fn command_head() -> Seq<char> {
    "parallel --delay 2 -j3 rawtherapee-cli -o converted -q -p {}.pp3.rot -j90 -js2 -Y -c {} ::: "@
}

/// How the command ends: a note on putting the rotated sidecar files in the
/// place of the original ones.
pub open spec fn command_tail() -> Seq<char> {
    "\n\n# Optionally replace the original pp3 files with the modified ones:\n# for f in *.pp3.rot; do mv -- \"$f\" \"${f%.rot}\"; done"@
}

/// The ending of the name of a rotated sidecar file.
pub open spec fn rotated_ending() -> Seq<char> {
    seq!['.', 'r', 'o', 't']
}

/// How many characters the two endings of a rotated sidecar file take, the
/// one of the sidecar file and the one added to it.
pub const ENDINGS_LEN: usize = 8;

/// Whether `name` is taken for the name of a rotated sidecar file: it ends in
/// `.rot`, after at least four more characters.
pub open spec fn is_rotated(name: Seq<char>) -> bool {
    name.len() >= ENDINGS_LEN && name.skip(name.len() - 4) == rotated_ending()
}

/// The name of the image that the rotated sidecar file `name` belongs to:
/// `name` without its last eight characters, which are `.pp3.rot` in every
/// name that the rewriter gives its output.
pub open spec fn image_name(name: Seq<char>) -> Seq<char> {
    name.take(name.len() - ENDINGS_LEN)
}

/// The images of the rotated sidecar files among `names`, in their order,
/// each followed by a space.
pub open spec fn images_listed(names: Seq<Seq<char>>) -> Seq<char>
    decreases names.len(),
{
    if names.len() == 0 {
        Seq::empty()
    } else if is_rotated(names.last()) {
        images_listed(names.drop_last()) + image_name(names.last()) + seq![' ']
    } else {
        images_listed(names.drop_last())
    }
}

/// The command for the files `names` of a directory.
pub open spec fn command_text(names: Seq<Seq<char>>) -> Seq<char> {
    command_head() + images_listed(names) + command_tail()
}

/// Whether `name` is taken for the name of a rotated sidecar file.
pub fn is_rotated_name(name: &str) -> (b: bool)
    ensures
        b == is_rotated(name@),
{
    let n: usize = name.unicode_len();
    if n < ENDINGS_LEN {
        return false;
    }
    let found: bool = name.get_char(n - 4) == '.' && name.get_char(n - 3) == 'r' && name.get_char(
        n - 2,
    ) == 'o' && name.get_char(n - 1) == 't';
    proof {
        let ending = name@.skip(n - 4);
        if found {
            assert(ending =~= rotated_ending());
        } else {
            assert(ending[0] == name@[n - 4]);
            assert(ending[1] == name@[n - 3]);
            assert(ending[2] == name@[n - 2]);
            assert(ending[3] == name@[n - 1]);
        }
    }
    found
}

/// The command that converts the images whose rotated sidecar files are
/// among the files `names` of a directory.
pub fn conversion_command(names: &Vec<String>) -> (command: String)
    ensures
        command@ == command_text(name_views(names@)),
{
    let mut command: String = String::from_str(
        "parallel --delay 2 -j3 rawtherapee-cli -o converted -q -p {}.pp3.rot -j90 -js2 -Y -c {} ::: ",
    );
    let ghost all = name_views(names@);
    let mut i: usize = 0;
    assert(all.take(0) =~= Seq::<Seq<char>>::empty());
    assert(command@ =~= command_head() + images_listed(all.take(0)));
    while i < names.len()
        invariant
            i <= names@.len(),
            all == name_views(names@),
            command@ == command_head() + images_listed(all.take(i as int)),
        decreases names@.len() - i,
    {
        let name: &str = names[i].as_str();
        proof {
            let seen = all.take(i + 1);
            assert(seen.drop_last() =~= all.take(i as int));
            assert(seen.last() == name@);
        }
        if is_rotated_name(name) {
            let n: usize = name.unicode_len();
            let image: &str = name.substring_char(0, n - ENDINGS_LEN);
            command.append(image);
            command.append(" ");
            proof {
                reveal_strlit(" ");
                assert(" "@ =~= seq![' ']);
                assert(image@ =~= image_name(name@));
                assert(command@ =~= command_head() + images_listed(all.take(i + 1)));
            }
        }
        i += 1;
    }
    assert(all.take(names@.len() as int) =~= all);
    command.append(
        "\n\n# Optionally replace the original pp3 files with the modified ones:\n# for f in *.pp3.rot; do mv -- \"$f\" \"${f%.rot}\"; done",
    );
    command
}

} // verus!
