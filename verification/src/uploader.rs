//! The uploader's rules: which commands mean work, which files form an
//! evidence pair, the multipart request body, and what happens to the pair
//! after the backend answered.

use crate::evidence::{without_name, EvidenceDir};
use vstd::prelude::*;

verus! {

/// What the uploader can be told.
pub enum UploaderCommand {
    /// New evidence may be on disk: scan the directory and upload.
    NotifyInfraction,
    /// Leave the event loop; monitors fire.
    Shutdown,
}

/// What the uploader does next.
pub enum UploaderAction {
    /// Scan the evidence directory and post every complete pair.
    ScanAndUpload,
    /// Return from the loop.
    Stop,
}

/// The uploader's reaction to one command: work on notification, return on
/// shutdown.
pub fn uploader_step(cmd: &UploaderCommand) -> (a: UploaderAction)
    ensures
        (cmd is NotifyInfraction <==> a is ScanAndUpload),
        (cmd is Shutdown <==> a is Stop),
{
    match cmd {
        UploaderCommand::NotifyInfraction => UploaderAction::ScanAndUpload,
        UploaderCommand::Shutdown => UploaderAction::Stop,
    }
}

/// The bytes of `.json`.
pub open spec fn json_ext() -> Seq<u8> {
    seq![0x2Eu8, 0x6Au8, 0x73u8, 0x6Fu8, 0x6Eu8]
}

/// The bytes of `.jpg`.
pub open spec fn jpg_ext() -> Seq<u8> {
    seq![0x2Eu8, 0x6Au8, 0x70u8, 0x67u8]
}

/// Whether a file name carries the `.json` extension.
pub open spec fn is_json_name(n: Seq<u8>) -> bool {
    n.len() >= 5 && n.skip(n.len() - 5) == json_ext()
}

/// The basename of a `.json` file name.
pub open spec fn stem_of(n: Seq<u8>) -> Seq<u8> {
    n.take(n.len() - 5)
}

/// The stems of the `.json` files of a directory listing, in listing
/// order: the complete evidence pairs to upload.
pub open spec fn json_stems(listing: Seq<Seq<u8>>) -> Seq<Seq<u8>>
    decreases listing.len(),
{
    if listing.len() == 0 {
        Seq::empty()
    } else {
        let rest = json_stems(listing.drop_first());
        if is_json_name(listing[0]) {
            seq![stem_of(listing[0])] + rest
        } else {
            rest
        }
    }
}

/// Filters a directory listing down to the stems of its `.json` entries.
/// Directory order is kept; no order across pairs is promised beyond it.
pub fn upload_candidates(listing: &Vec<Vec<u8>>) -> (r: Vec<Vec<u8>>)
    ensures
        r.deep_view() == json_stems(listing.deep_view()),
{
    let mut r: Vec<Vec<u8>> = Vec::new();
    let mut i: usize = 0;
    proof {
        assert(listing.deep_view().skip(0) =~~= listing.deep_view());
        assert(r.deep_view() + json_stems(listing.deep_view()) =~~= json_stems(
            listing.deep_view(),
        ));
    }
    while i < listing.len()
        invariant
            i <= listing@.len(),
            r.deep_view() + json_stems(listing.deep_view().skip(i as int)) == json_stems(
                listing.deep_view(),
            ),
        decreases listing@.len() - i,
    {
        let ghost rest = listing.deep_view().skip(i as int);
        proof {
            assert(rest.drop_first() =~~= listing.deep_view().skip(i + 1));
            assert(rest[0] == listing@[i as int]@);
        }
        let name = &listing[i];
        let n = name.len();
        let is_json = n >= 5 && {
            let tail = vstd::slice::slice_subrange(name.as_slice(), n - 5, n);
            crate::evidence::bytes_eq(tail, &[0x2E, 0x6A, 0x73, 0x6F, 0x6E])
        };
        proof {
            if n >= 5 {
                assert(name@.skip(n - 5) =~= rest[0].skip(rest[0].len() - 5));
            }
            assert(is_json == is_json_name(rest[0]));
        }
        if is_json {
            let stem = vstd::slice::slice_subrange(name.as_slice(), 0, n - 5);
            let ghost r_before = r.deep_view();
            r.push(vstd::slice::slice_to_vec(stem));
            proof {
                assert(stem@ =~= stem_of(rest[0]));
                assert(r.deep_view() =~~= r_before.push(stem_of(rest[0])));
                assert(r_before + (seq![stem_of(rest[0])] + json_stems(rest.drop_first()))
                    =~~= r.deep_view() + json_stems(rest.drop_first()));
            }
        }
        i = i + 1;
    }
    proof {
        assert(listing.deep_view().skip(i as int) =~~= Seq::<Seq<u8>>::empty());
        assert(r.deep_view() + json_stems(listing.deep_view().skip(i as int)) =~~= r.deep_view());
    }
    r
}

/// The `.jpg` file name of a basename.
pub fn jpg_name(stem: &[u8]) -> (r: Vec<u8>)
    ensures
        r@ == stem@ + jpg_ext(),
{
    let mut r = vstd::slice::slice_to_vec(stem);
    r.push(0x2E);
    r.push(0x6A);
    r.push(0x70);
    r.push(0x67);
    proof {
        assert(r@ =~= stem@ + jpg_ext());
    }
    r
}

/// The `.json` file name of a basename.
pub fn json_name(stem: &[u8]) -> (r: Vec<u8>)
    ensures
        r@ == stem@ + json_ext(),
{
    let mut r = vstd::slice::slice_to_vec(stem);
    r.push(0x2E);
    r.push(0x6A);
    r.push(0x73);
    r.push(0x6F);
    r.push(0x6E);
    proof {
        assert(r@ =~= stem@ + json_ext());
    }
    r
}

/// The outcome of one upload applied to the directory: the backend
/// accepted the pair — a 2xx answer — and both files go, or it did not and
/// the pair stays on disk for the next notification.
pub fn after_upload(dir: &mut EvidenceDir, stem: &[u8], accepted: bool)
    requires
        old(dir).wf(),
    ensures
        final(dir).wf(),
        accepted ==> final(dir)@.jpgs == without_name(old(dir)@.jpgs, stem@),
        accepted ==> final(dir)@.jsons == without_name(old(dir)@.jsons, stem@),
        !accepted ==> final(dir)@ == old(dir)@,
{
    if accepted {
        dir.delete_pair(stem);
    }
}

/// The bytes of `--`.
pub open spec fn lit_dashes() -> Seq<u8> {
    seq![0x2Du8, 0x2Du8]
}

fn push_dashes(out: &mut Vec<u8>)
    ensures
        final(out)@ == old(out)@ + lit_dashes(),
{
    let bytes: [u8; 2] = [0x2D, 0x2D];
    crate::json::push_bytes(out, bytes.as_slice());
    proof {
        assert(bytes@ =~= lit_dashes());
    }
}

/// A line break of the multipart format.
pub open spec fn lit_crlf() -> Seq<u8> {
    seq![0x0Du8, 0x0Au8]
}

fn push_crlf(out: &mut Vec<u8>)
    ensures
        final(out)@ == old(out)@ + lit_crlf(),
{
    let bytes: [u8; 2] = [0x0D, 0x0A];
    crate::json::push_bytes(out, bytes.as_slice());
    proof {
        assert(bytes@ =~= lit_crlf());
    }
}

/// Start of the photo part's disposition header.
pub open spec fn lit_cd_photo() -> Seq<u8> {
    seq![0x43u8, 0x6Fu8, 0x6Eu8, 0x74u8, 0x65u8, 0x6Eu8, 0x74u8, 0x2Du8, 0x44u8, 0x69u8, 0x73u8, 0x70u8, 0x6Fu8, 0x73u8, 0x69u8, 0x74u8, 0x69u8, 0x6Fu8, 0x6Eu8, 0x3Au8, 0x20u8, 0x66u8, 0x6Fu8, 0x72u8, 0x6Du8, 0x2Du8, 0x64u8, 0x61u8, 0x74u8, 0x61u8, 0x3Bu8, 0x20u8, 0x6Eu8, 0x61u8, 0x6Du8, 0x65u8, 0x3Du8, 0x22u8, 0x70u8, 0x68u8, 0x6Fu8, 0x74u8, 0x6Fu8, 0x22u8, 0x3Bu8, 0x20u8, 0x66u8, 0x69u8, 0x6Cu8, 0x65u8, 0x6Eu8, 0x61u8, 0x6Du8, 0x65u8, 0x3Du8, 0x22u8]
}

fn push_cd_photo(out: &mut Vec<u8>)
    ensures
        final(out)@ == old(out)@ + lit_cd_photo(),
{
    let bytes: [u8; 56] = [0x43, 0x6F, 0x6E, 0x74, 0x65, 0x6E, 0x74, 0x2D, 0x44, 0x69, 0x73, 0x70, 0x6F, 0x73, 0x69, 0x74, 0x69, 0x6F, 0x6E, 0x3A, 0x20, 0x66, 0x6F, 0x72, 0x6D, 0x2D, 0x64, 0x61, 0x74, 0x61, 0x3B, 0x20, 0x6E, 0x61, 0x6D, 0x65, 0x3D, 0x22, 0x70, 0x68, 0x6F, 0x74, 0x6F, 0x22, 0x3B, 0x20, 0x66, 0x69, 0x6C, 0x65, 0x6E, 0x61, 0x6D, 0x65, 0x3D, 0x22];
    crate::json::push_bytes(out, bytes.as_slice());
    proof {
        assert(bytes@ =~= lit_cd_photo());
    }
}

/// End of the disposition header's filename.
pub open spec fn lit_quote_crlf() -> Seq<u8> {
    seq![0x22u8, 0x0Du8, 0x0Au8]
}

fn push_quote_crlf(out: &mut Vec<u8>)
    ensures
        final(out)@ == old(out)@ + lit_quote_crlf(),
{
    let bytes: [u8; 3] = [0x22, 0x0D, 0x0A];
    crate::json::push_bytes(out, bytes.as_slice());
    proof {
        assert(bytes@ =~= lit_quote_crlf());
    }
}

/// The photo part's content type, closing the part headers.
pub open spec fn lit_ct_jpeg() -> Seq<u8> {
    seq![0x43u8, 0x6Fu8, 0x6Eu8, 0x74u8, 0x65u8, 0x6Eu8, 0x74u8, 0x2Du8, 0x54u8, 0x79u8, 0x70u8, 0x65u8, 0x3Au8, 0x20u8, 0x69u8, 0x6Du8, 0x61u8, 0x67u8, 0x65u8, 0x2Fu8, 0x6Au8, 0x70u8, 0x65u8, 0x67u8, 0x0Du8, 0x0Au8, 0x0Du8, 0x0Au8]
}

fn push_ct_jpeg(out: &mut Vec<u8>)
    ensures
        final(out)@ == old(out)@ + lit_ct_jpeg(),
{
    let bytes: [u8; 28] = [0x43, 0x6F, 0x6E, 0x74, 0x65, 0x6E, 0x74, 0x2D, 0x54, 0x79, 0x70, 0x65, 0x3A, 0x20, 0x69, 0x6D, 0x61, 0x67, 0x65, 0x2F, 0x6A, 0x70, 0x65, 0x67, 0x0D, 0x0A, 0x0D, 0x0A];
    crate::json::push_bytes(out, bytes.as_slice());
    proof {
        assert(bytes@ =~= lit_ct_jpeg());
    }
}

/// The JSON part's disposition header, closing the part headers.
pub open spec fn lit_cd_infraction() -> Seq<u8> {
    seq![0x43u8, 0x6Fu8, 0x6Eu8, 0x74u8, 0x65u8, 0x6Eu8, 0x74u8, 0x2Du8, 0x44u8, 0x69u8, 0x73u8, 0x70u8, 0x6Fu8, 0x73u8, 0x69u8, 0x74u8, 0x69u8, 0x6Fu8, 0x6Eu8, 0x3Au8, 0x20u8, 0x66u8, 0x6Fu8, 0x72u8, 0x6Du8, 0x2Du8, 0x64u8, 0x61u8, 0x74u8, 0x61u8, 0x3Bu8, 0x20u8, 0x6Eu8, 0x61u8, 0x6Du8, 0x65u8, 0x3Du8, 0x22u8, 0x69u8, 0x6Eu8, 0x66u8, 0x72u8, 0x61u8, 0x63u8, 0x74u8, 0x69u8, 0x6Fu8, 0x6Eu8, 0x22u8, 0x0Du8, 0x0Au8, 0x0Du8, 0x0Au8]
}

fn push_cd_infraction(out: &mut Vec<u8>)
    ensures
        final(out)@ == old(out)@ + lit_cd_infraction(),
{
    let bytes: [u8; 53] = [0x43, 0x6F, 0x6E, 0x74, 0x65, 0x6E, 0x74, 0x2D, 0x44, 0x69, 0x73, 0x70, 0x6F, 0x73, 0x69, 0x74, 0x69, 0x6F, 0x6E, 0x3A, 0x20, 0x66, 0x6F, 0x72, 0x6D, 0x2D, 0x64, 0x61, 0x74, 0x61, 0x3B, 0x20, 0x6E, 0x61, 0x6D, 0x65, 0x3D, 0x22, 0x69, 0x6E, 0x66, 0x72, 0x61, 0x63, 0x74, 0x69, 0x6F, 0x6E, 0x22, 0x0D, 0x0A, 0x0D, 0x0A];
    crate::json::push_bytes(out, bytes.as_slice());
    proof {
        assert(bytes@ =~= lit_cd_infraction());
    }
}

/// The multipart request body posted for one evidence pair: the photo part
/// carries the JPEG under its file name, the infraction part carries the
/// raw JSON text.
pub open spec fn multipart_body(
    boundary: Seq<u8>,
    filename: Seq<u8>,
    photo: Seq<u8>,
    json: Seq<u8>,
) -> Seq<u8> {
    lit_dashes() + boundary + lit_crlf() + lit_cd_photo() + filename + lit_quote_crlf()
        + lit_ct_jpeg() + photo + lit_crlf() + lit_dashes() + boundary + lit_crlf()
        + lit_cd_infraction() + json + lit_crlf() + lit_dashes() + boundary + lit_dashes()
        + lit_crlf()
}

/// Builds the multipart request body for one evidence pair.
pub fn format_multipart_body(
    boundary: &[u8],
    filename: &[u8],
    photo: &[u8],
    json: &[u8],
) -> (out: Vec<u8>)
    ensures
        out@ == multipart_body(boundary@, filename@, photo@, json@),
{
    let mut out: Vec<u8> = Vec::new();
    push_dashes(&mut out);
    crate::json::push_bytes(&mut out, boundary);
    push_crlf(&mut out);
    push_cd_photo(&mut out);
    crate::json::push_bytes(&mut out, filename);
    push_quote_crlf(&mut out);
    push_ct_jpeg(&mut out);
    crate::json::push_bytes(&mut out, photo);
    push_crlf(&mut out);
    push_dashes(&mut out);
    crate::json::push_bytes(&mut out, boundary);
    push_crlf(&mut out);
    push_cd_infraction(&mut out);
    crate::json::push_bytes(&mut out, json);
    push_crlf(&mut out);
    push_dashes(&mut out);
    crate::json::push_bytes(&mut out, boundary);
    push_dashes(&mut out);
    push_crlf(&mut out);
    proof {
        assert(out@ =~= multipart_body(boundary@, filename@, photo@, json@));
    }
    out
}

} // verus!
