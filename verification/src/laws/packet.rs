//! Packets: their frame and their size.
use crate::error::{ErrorKind, Failure};
use crate::node::NodeView;
use crate::path::Names;
use crate::rdf::{lemma_packet_size, packet_header, packet_result, packet_text, packet_trailer};
use crate::rdf::{padded_result, rdf_result};
use crate::text::{blanks, byte_len, decimal};
use vstd::prelude::*;
use vstd::utf8::*;

verus! {

/// Every packet starts with the same header and ends with the same trailer.
pub proof fn law_packet_frame(rdf: Seq<char>, padding: nat)
    ensures
        packet_header().is_prefix_of(packet_text(rdf, padding)),
        packet_trailer().is_suffix_of(packet_text(rdf, padding)),
{
    let p = packet_text(rdf, padding);
    let h = packet_header();
    let t = packet_trailer();
    assert(h =~= p.subrange(0, h.len() as int));
    assert(t =~= p.subrange(p.len() - t.len(), p.len() as int));
}

/// There is a packet of a given size exactly where there is one without padding that is
/// not longer, and it has that size.
pub proof fn law_padded_size(names: Names, fields: Seq<(Seq<char>, NodeView)>, target: nat)
    ensures
        padded_result(names, fields, target) is Ok <==> (packet_result(names, fields) matches Ok(
            packet,
        ) && byte_len(packet) <= target),
        padded_result(names, fields, target) matches Ok(packet) ==> byte_len(packet) == target,
{
    if let Ok(rdf) = rdf_result(names, fields) {
        lemma_packet_size(rdf, 0);
        if byte_len(packet_text(rdf, 0)) <= target {
            lemma_packet_size(rdf, (target - byte_len(packet_text(rdf, 0))) as nat);
        }
    }
}

/// A packet that already has the size asked for is not padded.
pub proof fn law_exact_size_is_not_padded(names: Names, fields: Seq<(Seq<char>, NodeView)>)
    requires
        packet_result(names, fields) is Ok,
    ensures
        padded_result(names, fields, byte_len(packet_result(names, fields)->Ok_0))
            == packet_result(names, fields),
{
}

/// Padding puts blanks before the trailer and changes nothing else.
pub proof fn law_padding_is_blanks(
    names: Names,
    fields: Seq<(Seq<char>, NodeView)>,
    padding: nat,
)
    requires
        packet_result(names, fields) is Ok,
    ensures
        ({
            let packet = packet_result(names, fields)->Ok_0;
            let cut = packet.len() - packet_trailer().len();
            padded_result(names, fields, byte_len(packet) + padding) == Ok::<
                Seq<char>,
                Failure,
            >(packet.take(cut) + blanks(padding) + packet.skip(cut))
        }),
{
    let rdf = rdf_result(names, fields)->Ok_0;
    let packet = packet_result(names, fields)->Ok_0;
    let cut = packet.len() - packet_trailer().len();
    assert(packet.take(cut) + blanks(padding) + packet.skip(cut) =~= packet_text(rdf, padding));
}

/// An error of a document is an error of its packets, padded or not.
pub proof fn law_document_errors_pass(
    names: Names,
    fields: Seq<(Seq<char>, NodeView)>,
    target: nat,
)
    requires
        rdf_result(names, fields) is Err,
    ensures
        packet_result(names, fields) == rdf_result(names, fields),
        padded_result(names, fields, target) == rdf_result(names, fields),
{
}

/// A packet holds the document: between the header with its line feed and the line feed
/// before the trailer stands, character for character, what the same tree is serialized to.
pub proof fn law_packet_holds_document(names: Names, fields: Seq<(Seq<char>, NodeView)>)
    requires
        packet_result(names, fields) is Ok,
    ensures
        rdf_result(names, fields) is Ok,
        packet_result(names, fields)->Ok_0
            == "<?xpacket begin=\"\" id=\"W5M0MpCehiHzreSzNTczkc9d\"?>"@ + "\n"@ + rdf_result(
            names,
            fields,
        )->Ok_0 + "\n"@ + "<?xpacket end=\"w\"?>"@,
{
    let rdf = rdf_result(names, fields)->Ok_0;
    let body = packet_header() + "\n"@ + rdf + "\n"@;
    assert(body + blanks(0) =~= body);
}

/// A padded packet holds the document too, and between the line feed after it and the
/// trailer nothing but blanks, as many as make up the size.
pub proof fn law_padded_packet_holds_document(
    names: Names,
    fields: Seq<(Seq<char>, NodeView)>,
    target: nat,
)
    requires
        padded_result(names, fields, target) is Ok,
    ensures
        rdf_result(names, fields) is Ok,
        ({
            let body = "<?xpacket begin=\"\" id=\"W5M0MpCehiHzreSzNTczkc9d\"?>"@ + "\n"@
                + rdf_result(names, fields)->Ok_0 + "\n"@;
            let trailer = "<?xpacket end=\"w\"?>"@;
            let missing = target - encode_utf8(body + trailer).len();
            &&& missing >= 0
            &&& padded_result(names, fields, target)->Ok_0 == body + Seq::new(
                missing as nat,
                |i: int| ' ',
            ) + trailer
            &&& encode_utf8(padded_result(names, fields, target)->Ok_0).len() == target
        }),
{
    let rdf = rdf_result(names, fields)->Ok_0;
    let body = packet_header() + "\n"@ + rdf + "\n"@;
    assert(body + blanks(0) =~= body);
    law_padded_size(names, fields, target);
}

/// A document that can be serialized makes a packet, and where the packet is longer than
/// the size asked for, the error names both sizes, in bytes.
pub proof fn law_too_long_packet_is_told(
    names: Names,
    fields: Seq<(Seq<char>, NodeView)>,
    target: nat,
)
    requires
        rdf_result(names, fields) is Ok,
    ensures
        packet_result(names, fields) is Ok,
        ({
            let size = encode_utf8(packet_result(names, fields)->Ok_0).len();
            padded_result(names, fields, target) == if size > target {
                Err(
                    Failure {
                        kind: ErrorKind::BadValue,
                        message: "XMP packet minimum size ("@ + decimal(size)
                            + ") exceeds target length ("@ + decimal(target) + ")"@,
                    },
                )
            } else {
                Ok(padded_result(names, fields, target)->Ok_0)
            }
        }),
{
}

} // verus!
