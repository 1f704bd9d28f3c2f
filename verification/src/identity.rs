//! The identity-resolution boundary and avatar handling: substitute a
//! placeholder identity when the external collaborator has nothing,
//! probe the archive for an avatar image, and compute the deterministic
//! default-avatar reference.
use vstd::prelude::*;
use vstd::string::{StrSliceExecFns, StringExecFns};
use crate::archive::Archive;
use crate::models::UserData;
use crate::text::{chars_of, dec_digits, digits_val, parse_u64, parses_as_u64, push_u64};

verus! {

/// The placeholder identity used when the identity-resolution
/// collaborator reports nothing: name Unknown, the sentinel
/// discriminator, no avatar reference.
pub fn resolve_identity(fetched: Option<UserData>) -> (r: UserData)
    ensures
        fetched matches Some(u) ==> r == u,
        fetched is None ==> r.username@ == "Unknown"@ && r.discriminator == 0 && r.avatar is None,
{
    match fetched {
        Some(u) => u,
        None => UserData { username: "Unknown".to_owned(), discriminator: 0, avatar: None },
    }
}

/// Path of an avatar probe under the user root.
pub open spec fn avatar_path(root: Seq<char>, ext: Seq<char>) -> Seq<char> {
    root + "/avatar."@ + ext
}

/// The avatar blob of a user root: the first of the four probes, in
/// fixed priority order, that the archive holds.
pub open spec fn avatar_of(a: Archive, root: Seq<char>) -> Option<Seq<u8>> {
    if a.lookup(avatar_path(root, "png"@)) is Some {
        a.lookup(avatar_path(root, "png"@))
    } else if a.lookup(avatar_path(root, "jpeg"@)) is Some {
        a.lookup(avatar_path(root, "jpeg"@))
    } else if a.lookup(avatar_path(root, "jpg"@)) is Some {
        a.lookup(avatar_path(root, "jpg"@))
    } else {
        a.lookup(avatar_path(root, "gif"@))
    }
}

/// Concatenation of three path pieces.
pub fn concat3(a: &str, b: &str, c: &str) -> (r: String)
    ensures
        r@ == a@ + b@ + c@,
{
    let mut r = a.to_owned();
    r.append(b);
    r.append(c);
    proof {
        assert(r@ =~= a@ + b@ + c@);
    }
    r
}

/// Probe the four avatar extensions at the user root and return the
/// first binary blob found.
pub fn load_user_avatar(a: &Archive, user_root: &String) -> (r: Option<Vec<u8>>)
    ensures
        r matches Some(d) ==> avatar_of(*a, user_root@) == Some(d@),
        r is None ==> avatar_of(*a, user_root@) is None,
{
    let p_png = concat3(user_root.as_str(), "/avatar.", "png");
    if let Some(d) = a.read_binary(p_png.as_str()) {
        return Some(d);
    }
    let p_jpeg = concat3(user_root.as_str(), "/avatar.", "jpeg");
    if let Some(d) = a.read_binary(p_jpeg.as_str()) {
        return Some(d);
    }
    let p_jpg = concat3(user_root.as_str(), "/avatar.", "jpg");
    if let Some(d) = a.read_binary(p_jpg.as_str()) {
        return Some(d);
    }
    let p_gif = concat3(user_root.as_str(), "/avatar.", "gif");
    if let Some(d) = a.read_binary(p_gif.as_str()) {
        return Some(d);
    }
    None
}

/// The numeric value of a user id, zero for text that is not a plain
/// decimal number.
pub open spec fn id_value(id: Seq<char>) -> u64 {
    if parses_as_u64(id) {
        digits_val(id) as u64
    } else {
        0
    }
}

/// The default-avatar index: for the newer account scheme (sentinel
/// discriminator zero) a bit-shift of the numeric id modulo six,
/// otherwise the discriminator modulo five.
pub open spec fn default_avatar_index(id: Seq<char>, discriminator: u16) -> u64 {
    if discriminator == 0 {
        (id_value(id) >> 22) % 6
    } else {
        (discriminator % 5) as u64
    }
}

/// The reference of the externally hosted default-avatar image selected
/// by the index.
pub open spec fn default_avatar_url(id: Seq<char>, discriminator: u16) -> Seq<char> {
    "https://cdn.discordapp.com/embed/avatars/"@ + dec_digits(
        default_avatar_index(id, discriminator) as nat,
    ) + ".png"@
}

/// Compute the default-avatar reference for a user id and discriminator.
pub fn compute_default_avatar_url(user_id: &str, discriminator: u16) -> (r: String)
    ensures
        r@ == default_avatar_url(user_id@, discriminator),
{
    let cs = chars_of(user_id);
    let v: u64 = match parse_u64(&cs) {
        Some(v) => v,
        None => 0,
    };
    let index: u64 = if discriminator == 0 {
        (v >> 22u64) % 6
    } else {
        (discriminator % 5) as u64
    };
    let mut r = "https://cdn.discordapp.com/embed/avatars/".to_owned();
    push_u64(&mut r, index);
    r.append(".png");
    proof {
        assert(r@ =~= default_avatar_url(user_id@, discriminator));
    }
    r
}

} // verus!
