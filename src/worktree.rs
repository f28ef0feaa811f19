use vstd::prelude::*;

verus! {

/// Name under which the push run registers its linked worktree.
pub open spec fn worktree_name() -> Seq<char> {
    "repo_push_worktree"@
}

/// Directory name of a worktree checkout made with the random `suffix`.
pub open spec fn dir_name_for(suffix: Seq<char>) -> Seq<char> {
    worktree_name() + "-"@ + suffix
}

/// A lower-case hexadecimal digit.
pub open spec fn hex_digit(c: char) -> bool {
    ('0' <= c <= '9') || ('a' <= c <= 'f')
}

/// The shape of a hyphenated identifier: 36 characters, dashes at 8, 13, 18
/// and 23, lower-case hex digits everywhere else.
pub open spec fn id_shape(s: Seq<char>) -> bool {
    &&& s.len() == 36
    &&& forall|i: int|
        0 <= i < 36 ==> if i == 8 || i == 13 || i == 18 || i == 23 {
            #[trigger] s[i] == '-'
        } else {
            hex_digit(s[i])
        }
}

/// Relies on uuid's `Uuid::new_v4` and the `Display` of its `Hyphenated`
/// form: 36 characters, dashes at 8, 13, 18 and 23, lower-case hex digits
/// elsewhere. The value is random (uuid panics only if the system's random
/// source fails).
#[verifier::external_body]
fn random_suffix() -> (r: String)
    ensures
        id_shape(r@),
{
    uuid::Uuid::new_v4().hyphenated().to_string()
}

/// The name the worktree is registered under.
pub fn worktree_label() -> (r: String)
    ensures
        r@ == worktree_name(),
{
    String::from_str("repo_push_worktree")
}

/// Directory name of a checkout made with `suffix`: the worktree's name, a
/// dash, then the suffix.
pub fn dir_name(suffix: &str) -> (r: String)
    ensures
        r@ == dir_name_for(suffix@),
{
    let mut name = worktree_label();
    name.append("-");
    name.append(suffix);
    name
}

/// A fresh, collision-free directory name for a worktree checkout: the
/// worktree's name, a dash, and a random hyphenated identifier.
pub fn fresh_dir_name() -> (r: String)
    ensures
        exists|suffix: Seq<char>|
            id_shape(suffix) && r@ == dir_name_for(suffix),
{
    let suffix = random_suffix();
    dir_name(suffix.as_str())
}

} // verus!
