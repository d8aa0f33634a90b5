//! Byte strings of the PDF names that page overlays read and write.

use vstd::prelude::*;

verus! {

/// The PDF name `Contents`.
pub open spec fn name_contents() -> Seq<u8> {
    seq![67, 111, 110, 116, 101, 110, 116, 115]
}

/// The PDF name `Contents`.
pub fn contents_name() -> (name: Vec<u8>)
    ensures
        name@ == name_contents(),
{
    let name: Vec<u8> = vec![67, 111, 110, 116, 101, 110, 116, 115];
    name
}

/// The PDF name `Resources`.
pub open spec fn name_resources() -> Seq<u8> {
    seq![82, 101, 115, 111, 117, 114, 99, 101, 115]
}

/// The PDF name `Resources`.
pub fn resources_name() -> (name: Vec<u8>)
    ensures
        name@ == name_resources(),
{
    let name: Vec<u8> = vec![82, 101, 115, 111, 117, 114, 99, 101, 115];
    name
}

/// The PDF name `Font`.
pub open spec fn name_font() -> Seq<u8> {
    seq![70, 111, 110, 116]
}

/// The PDF name `Font`.
pub fn font_name() -> (name: Vec<u8>)
    ensures
        name@ == name_font(),
{
    let name: Vec<u8> = vec![70, 111, 110, 116];
    name
}

/// The PDF name `OCR_F1`.
pub open spec fn name_ocr_f1() -> Seq<u8> {
    seq![79, 67, 82, 95, 70, 49]
}

/// The PDF name `OCR_F1`.
pub fn ocr_f1_name() -> (name: Vec<u8>)
    ensures
        name@ == name_ocr_f1(),
{
    let name: Vec<u8> = vec![79, 67, 82, 95, 70, 49];
    name
}

/// The PDF name `MediaBox`.
pub open spec fn name_media_box() -> Seq<u8> {
    seq![77, 101, 100, 105, 97, 66, 111, 120]
}

/// The PDF name `MediaBox`.
pub fn media_box_name() -> (name: Vec<u8>)
    ensures
        name@ == name_media_box(),
{
    let name: Vec<u8> = vec![77, 101, 100, 105, 97, 66, 111, 120];
    name
}

/// The PDF name `Parent`.
pub open spec fn name_parent() -> Seq<u8> {
    seq![80, 97, 114, 101, 110, 116]
}

/// The PDF name `Parent`.
pub fn parent_name() -> (name: Vec<u8>)
    ensures
        name@ == name_parent(),
{
    let name: Vec<u8> = vec![80, 97, 114, 101, 110, 116];
    name
}

/// The PDF name `Length`.
pub open spec fn name_length() -> Seq<u8> {
    seq![76, 101, 110, 103, 116, 104]
}

/// The PDF name `Length`.
pub fn length_name() -> (name: Vec<u8>)
    ensures
        name@ == name_length(),
{
    let name: Vec<u8> = vec![76, 101, 110, 103, 116, 104];
    name
}

/// The PDF name `Type`.
pub open spec fn name_type_key() -> Seq<u8> {
    seq![84, 121, 112, 101]
}

/// The PDF name `Type`.
pub fn type_key_name() -> (name: Vec<u8>)
    ensures
        name@ == name_type_key(),
{
    let name: Vec<u8> = vec![84, 121, 112, 101];
    name
}

/// The PDF name `Subtype`.
pub open spec fn name_subtype() -> Seq<u8> {
    seq![83, 117, 98, 116, 121, 112, 101]
}

/// The PDF name `Subtype`.
pub fn subtype_name() -> (name: Vec<u8>)
    ensures
        name@ == name_subtype(),
{
    let name: Vec<u8> = vec![83, 117, 98, 116, 121, 112, 101];
    name
}

/// The PDF name `BaseFont`.
pub open spec fn name_base_font() -> Seq<u8> {
    seq![66, 97, 115, 101, 70, 111, 110, 116]
}

/// The PDF name `BaseFont`.
pub fn base_font_name() -> (name: Vec<u8>)
    ensures
        name@ == name_base_font(),
{
    let name: Vec<u8> = vec![66, 97, 115, 101, 70, 111, 110, 116];
    name
}

/// The PDF name `Encoding`.
pub open spec fn name_encoding() -> Seq<u8> {
    seq![69, 110, 99, 111, 100, 105, 110, 103]
}

/// The PDF name `Encoding`.
pub fn encoding_name() -> (name: Vec<u8>)
    ensures
        name@ == name_encoding(),
{
    let name: Vec<u8> = vec![69, 110, 99, 111, 100, 105, 110, 103];
    name
}

/// The PDF name `Type1`.
pub open spec fn name_type1() -> Seq<u8> {
    seq![84, 121, 112, 101, 49]
}

/// The PDF name `Type1`.
pub fn type1_name() -> (name: Vec<u8>)
    ensures
        name@ == name_type1(),
{
    let name: Vec<u8> = vec![84, 121, 112, 101, 49];
    name
}

/// The PDF name `Helvetica`.
pub open spec fn name_helvetica() -> Seq<u8> {
    seq![72, 101, 108, 118, 101, 116, 105, 99, 97]
}

/// The PDF name `Helvetica`.
pub fn helvetica_name() -> (name: Vec<u8>)
    ensures
        name@ == name_helvetica(),
{
    let name: Vec<u8> = vec![72, 101, 108, 118, 101, 116, 105, 99, 97];
    name
}

/// The PDF name `WinAnsiEncoding`.
pub open spec fn name_win_ansi_encoding() -> Seq<u8> {
    seq![87, 105, 110, 65, 110, 115, 105, 69, 110, 99, 111, 100, 105, 110, 103]
}

/// The PDF name `WinAnsiEncoding`.
pub fn win_ansi_encoding_name() -> (name: Vec<u8>)
    ensures
        name@ == name_win_ansi_encoding(),
{
    let name: Vec<u8> = vec![87, 105, 110, 65, 110, 115, 105, 69, 110, 99, 111, 100, 105, 110, 103];
    name
}

} // verus!
