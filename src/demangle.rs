use vstd::prelude::*;
use vstd::utf8::encode_utf8;

verus! {

/// The longest symbol, in bytes, given to the MSVC scheme: its decoder
/// recurses once per pointer code without a depth limit, so a long enough
/// symbol would exhaust the stack.
pub const MSVC_MAX_LEN: usize = 1024;

/// What the Rust schemes (legacy and v0) decode `s` to, where `s` is mangled
/// by one of them.
pub uninterp spec fn rust_demangled(s: Seq<char>) -> Option<Seq<char>>;

/// What the Itanium C++ scheme decodes `s` to, where `s` is mangled by it.
pub uninterp spec fn cpp_demangled(s: Seq<char>) -> Option<Seq<char>>;

/// The name alone that the MSVC scheme decodes `s` to, where `s` is mangled
/// by it.
pub uninterp spec fn msvc_demangled(s: Seq<char>) -> Option<Seq<char>>;

/// The characters held by an optional string.
pub open spec fn opt_view(r: Option<String>) -> Option<Seq<char>> {
    match r {
        Some(s) => Some(s@),
        None => None,
    }
}

/// Relies on `rustc_demangle::try_demangle` and its `Display`: the text
/// depends on the symbol alone.
#[verifier::external_body]
fn try_rust(sym: &str) -> (r: Option<String>)
    ensures
        opt_view(r) == rust_demangled(sym@),
{
    match rustc_demangle::try_demangle(sym) {
        Ok(d) => Some(d.to_string()),
        Err(_) => None,
    }
}

/// Relies on `cpp_demangle::Symbol::new` and `Symbol::demangle` with the
/// default options: the text depends on the symbol alone.
#[verifier::external_body]
fn try_cpp(sym: &str) -> (r: Option<String>)
    ensures
        opt_view(r) == cpp_demangled(sym@),
{
    match cpp_demangle::Symbol::new(sym.as_bytes()) {
        Ok(s) => s.demangle().ok(),
        Err(_) => None,
    }
}

/// Relies on `msvc_demangler::demangle` with `NAME_ONLY`: the text depends
/// on the symbol alone; symbols longer than `MSVC_MAX_LEN` bytes are not
/// given to it.
#[verifier::external_body]
fn try_msvc(sym: &str) -> (r: Option<String>)
    requires
        encode_utf8(sym@).len() <= MSVC_MAX_LEN,
    ensures
        opt_view(r) == msvc_demangled(sym@),
{
    msvc_demangler::demangle(sym, msvc_demangler::DemangleFlags::NAME_ONLY).ok()
}

/// Relies on `String::push_str`: `tail` is appended.
#[verifier::external_body]
fn push_str(s: &mut String, tail: &str)
    ensures
        final(s)@ == old(s)@ + tail@,
{
    s.push_str(tail);
}

/// The first decoding that succeeds, Rust's, then C++'s, then MSVC's, or the
/// symbol itself.
pub open spec fn first_decoding(
    rust: Option<Seq<char>>,
    cpp: Option<Seq<char>>,
    msvc: Option<Seq<char>>,
    sym: Seq<char>,
) -> Seq<char> {
    match rust {
        Some(d) => d,
        None => match cpp {
            Some(d) => d,
            None => match msvc {
                Some(d) => d,
                None => sym,
            },
        },
    }
}

/// The demangled form of `sym`; the MSVC scheme is tried only on symbols
/// of at most `MSVC_MAX_LEN` bytes.
pub open spec fn demangled(sym: Seq<char>) -> Seq<char> {
    let msvc = if encode_utf8(sym).len() <= MSVC_MAX_LEN {
        msvc_demangled(sym)
    } else {
        None
    };
    first_decoding(rust_demangled(sym), cpp_demangled(sym), msvc, sym)
}

/// Picks the first decoding that succeeded, or the symbol itself.
pub fn pick_decoding(
    rust: Option<String>,
    cpp: Option<String>,
    msvc: Option<String>,
    sym: &str,
) -> (r: String)
    ensures
        r@ == first_decoding(opt_view(rust), opt_view(cpp), opt_view(msvc), sym@),
{
    match rust {
        Some(d) => d,
        None => match cpp {
            Some(d) => d,
            None => match msvc {
                Some(d) => d,
                None => sym.to_owned(),
            },
        },
    }
}

/// Demangles a symbol: Rust (legacy or v0), then Itanium C++, then MSVC for symbols
/// of at most `MSVC_MAX_LEN` bytes; a symbol that none of them decodes comes
/// back as it is.
pub fn demangle(sym: &str) -> (r: String)
    ensures
        r@ == demangled(sym@),
{
    let rust = try_rust(sym);
    if rust.is_some() {
        return pick_decoding(rust, None, None, sym);
    }
    let cpp = try_cpp(sym);
    if cpp.is_some() {
        return pick_decoding(None, cpp, None, sym);
    }
    let bytes = sym.as_bytes();
    assert(bytes@ == encode_utf8(sym@));
    if bytes.len() > MSVC_MAX_LEN {
        return pick_decoding(None, None, None, sym);
    }
    pick_decoding(None, None, try_msvc(sym), sym)
}

/// Appends the demangled form of `sym` to `out`.
pub fn demangle_to(sym: &str, out: &mut String)
    ensures
        final(out)@ == old(out)@ + demangled(sym@),
{
    let d = demangle(sym);
    push_str(out, d.as_str());
}

} // verus!
