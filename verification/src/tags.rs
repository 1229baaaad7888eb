//! The element names the converter knows, with their numeric ids.

use vstd::prelude::*;
use crate::chars::{lower_seq, to_ascii_lowercase};
use crate::text::bytes_eq;
use vstd::string::StringSliceAdditionalSpecFns;

verus! {

pub const TAG_A: u8 = 0;
pub const TAG_ABBR: u8 = 1;
pub const TAG_ADDRESS: u8 = 2;
pub const TAG_AREA: u8 = 3;
pub const TAG_ARTICLE: u8 = 4;
pub const TAG_ASIDE: u8 = 5;
pub const TAG_AUDIO: u8 = 6;
pub const TAG_B: u8 = 7;
pub const TAG_BASE: u8 = 8;
pub const TAG_BDI: u8 = 9;
pub const TAG_BDO: u8 = 10;
pub const TAG_BIG: u8 = 11;
pub const TAG_BLOCKQUOTE: u8 = 12;
pub const TAG_BODY: u8 = 13;
pub const TAG_BR: u8 = 14;
pub const TAG_BUTTON: u8 = 15;
pub const TAG_CANVAS: u8 = 16;
pub const TAG_CAPTION: u8 = 17;
pub const TAG_CENTER: u8 = 18;
pub const TAG_CITE: u8 = 19;
pub const TAG_CODE: u8 = 20;
pub const TAG_COL: u8 = 21;
pub const TAG_COLGROUP: u8 = 22;
pub const TAG_DATA: u8 = 23;
pub const TAG_DATALIST: u8 = 24;
pub const TAG_DD: u8 = 25;
pub const TAG_DEL: u8 = 26;
pub const TAG_DETAILS: u8 = 27;
pub const TAG_DFN: u8 = 28;
pub const TAG_DIALOG: u8 = 29;
pub const TAG_DIV: u8 = 30;
pub const TAG_DL: u8 = 31;
pub const TAG_DT: u8 = 32;
pub const TAG_EM: u8 = 33;
pub const TAG_EMBED: u8 = 34;
pub const TAG_FIELDSET: u8 = 35;
pub const TAG_FIGCAPTION: u8 = 36;
pub const TAG_FIGURE: u8 = 37;
pub const TAG_FONT: u8 = 38;
pub const TAG_FOOTER: u8 = 39;
pub const TAG_FORM: u8 = 40;
pub const TAG_FRAME: u8 = 41;
pub const TAG_FRAMESET: u8 = 42;
pub const TAG_H1: u8 = 43;
pub const TAG_H2: u8 = 44;
pub const TAG_H3: u8 = 45;
pub const TAG_H4: u8 = 46;
pub const TAG_H5: u8 = 47;
pub const TAG_H6: u8 = 48;
pub const TAG_HEAD: u8 = 49;
pub const TAG_HEADER: u8 = 50;
pub const TAG_HGROUP: u8 = 51;
pub const TAG_HR: u8 = 52;
pub const TAG_HTML: u8 = 53;
pub const TAG_I: u8 = 54;
pub const TAG_IFRAME: u8 = 55;
pub const TAG_IMG: u8 = 56;
pub const TAG_INPUT: u8 = 57;
pub const TAG_INS: u8 = 58;
pub const TAG_KBD: u8 = 59;
pub const TAG_KEYGEN: u8 = 60;
pub const TAG_LABEL: u8 = 61;
pub const TAG_LEGEND: u8 = 62;
pub const TAG_LI: u8 = 63;
pub const TAG_LINK: u8 = 64;
pub const TAG_MAIN: u8 = 65;
pub const TAG_MAP: u8 = 66;
pub const TAG_MARK: u8 = 67;
pub const TAG_MENU: u8 = 68;
pub const TAG_META: u8 = 69;
pub const TAG_METER: u8 = 70;
pub const TAG_NAV: u8 = 71;
pub const TAG_NOBR: u8 = 72;
pub const TAG_NOEMBED: u8 = 73;
pub const TAG_NOFRAMES: u8 = 74;
pub const TAG_NOSCRIPT: u8 = 75;
pub const TAG_OBJECT: u8 = 76;
pub const TAG_OL: u8 = 77;
pub const TAG_OPTGROUP: u8 = 78;
pub const TAG_OPTION: u8 = 79;
pub const TAG_OUTPUT: u8 = 80;
pub const TAG_P: u8 = 81;
pub const TAG_PARAM: u8 = 82;
pub const TAG_PICTURE: u8 = 83;
pub const TAG_PLAINTEXT: u8 = 84;
pub const TAG_PRE: u8 = 85;
pub const TAG_PROGRESS: u8 = 86;
pub const TAG_Q: u8 = 87;
pub const TAG_RP: u8 = 88;
pub const TAG_RT: u8 = 89;
pub const TAG_RUBY: u8 = 90;
pub const TAG_S: u8 = 91;
pub const TAG_SAMP: u8 = 92;
pub const TAG_SCRIPT: u8 = 93;
pub const TAG_SEARCH: u8 = 94;
pub const TAG_SECTION: u8 = 95;
pub const TAG_SELECT: u8 = 96;
pub const TAG_SMALL: u8 = 97;
pub const TAG_SOURCE: u8 = 98;
pub const TAG_SPAN: u8 = 99;
pub const TAG_STRIKE: u8 = 100;
pub const TAG_STRONG: u8 = 101;
pub const TAG_STYLE: u8 = 102;
pub const TAG_SUB: u8 = 103;
pub const TAG_SUMMARY: u8 = 104;
pub const TAG_SUP: u8 = 105;
pub const TAG_SVG: u8 = 106;
pub const TAG_TABLE: u8 = 107;
pub const TAG_TBODY: u8 = 108;
pub const TAG_TD: u8 = 109;
pub const TAG_TEMPLATE: u8 = 110;
pub const TAG_TEXTAREA: u8 = 111;
pub const TAG_TFOOT: u8 = 112;
pub const TAG_TH: u8 = 113;
pub const TAG_THEAD: u8 = 114;
pub const TAG_TIME: u8 = 115;
pub const TAG_TITLE: u8 = 116;
pub const TAG_TR: u8 = 117;
pub const TAG_TRACK: u8 = 118;
pub const TAG_TT: u8 = 119;
pub const TAG_U: u8 = 120;
pub const TAG_UL: u8 = 121;
pub const TAG_VAR: u8 = 122;
pub const TAG_VIDEO: u8 = 123;
pub const TAG_WBR: u8 = 124;
pub const TAG_XMP: u8 = 125;

/// Number of known element names; every id is below it.
pub const MAX_TAG_ID: usize = 126;

/// The lower-case name of the element with the given id.
pub open spec fn tag_name_spec(id: u8) -> Seq<u8> {
    if id == 0 { seq![97u8] }  // a
    else if id == 1 { seq![97u8, 98u8, 98u8, 114u8] }  // abbr
    else if id == 2 { seq![97u8, 100u8, 100u8, 114u8, 101u8, 115u8, 115u8] }  // address
    else if id == 3 { seq![97u8, 114u8, 101u8, 97u8] }  // area
    else if id == 4 { seq![97u8, 114u8, 116u8, 105u8, 99u8, 108u8, 101u8] }  // article
    else if id == 5 { seq![97u8, 115u8, 105u8, 100u8, 101u8] }  // aside
    else if id == 6 { seq![97u8, 117u8, 100u8, 105u8, 111u8] }  // audio
    else if id == 7 { seq![98u8] }  // b
    else if id == 8 { seq![98u8, 97u8, 115u8, 101u8] }  // base
    else if id == 9 { seq![98u8, 100u8, 105u8] }  // bdi
    else if id == 10 { seq![98u8, 100u8, 111u8] }  // bdo
    else if id == 11 { seq![98u8, 105u8, 103u8] }  // big
    else if id == 12 { seq![98u8, 108u8, 111u8, 99u8, 107u8, 113u8, 117u8, 111u8, 116u8, 101u8] }  // blockquote
    else if id == 13 { seq![98u8, 111u8, 100u8, 121u8] }  // body
    else if id == 14 { seq![98u8, 114u8] }  // br
    else if id == 15 { seq![98u8, 117u8, 116u8, 116u8, 111u8, 110u8] }  // button
    else if id == 16 { seq![99u8, 97u8, 110u8, 118u8, 97u8, 115u8] }  // canvas
    else if id == 17 { seq![99u8, 97u8, 112u8, 116u8, 105u8, 111u8, 110u8] }  // caption
    else if id == 18 { seq![99u8, 101u8, 110u8, 116u8, 101u8, 114u8] }  // center
    else if id == 19 { seq![99u8, 105u8, 116u8, 101u8] }  // cite
    else if id == 20 { seq![99u8, 111u8, 100u8, 101u8] }  // code
    else if id == 21 { seq![99u8, 111u8, 108u8] }  // col
    else if id == 22 { seq![99u8, 111u8, 108u8, 103u8, 114u8, 111u8, 117u8, 112u8] }  // colgroup
    else if id == 23 { seq![100u8, 97u8, 116u8, 97u8] }  // data
    else if id == 24 { seq![100u8, 97u8, 116u8, 97u8, 108u8, 105u8, 115u8, 116u8] }  // datalist
    else if id == 25 { seq![100u8, 100u8] }  // dd
    else if id == 26 { seq![100u8, 101u8, 108u8] }  // del
    else if id == 27 { seq![100u8, 101u8, 116u8, 97u8, 105u8, 108u8, 115u8] }  // details
    else if id == 28 { seq![100u8, 102u8, 110u8] }  // dfn
    else if id == 29 { seq![100u8, 105u8, 97u8, 108u8, 111u8, 103u8] }  // dialog
    else if id == 30 { seq![100u8, 105u8, 118u8] }  // div
    else if id == 31 { seq![100u8, 108u8] }  // dl
    else if id == 32 { seq![100u8, 116u8] }  // dt
    else if id == 33 { seq![101u8, 109u8] }  // em
    else if id == 34 { seq![101u8, 109u8, 98u8, 101u8, 100u8] }  // embed
    else if id == 35 { seq![102u8, 105u8, 101u8, 108u8, 100u8, 115u8, 101u8, 116u8] }  // fieldset
    else if id == 36 { seq![102u8, 105u8, 103u8, 99u8, 97u8, 112u8, 116u8, 105u8, 111u8, 110u8] }  // figcaption
    else if id == 37 { seq![102u8, 105u8, 103u8, 117u8, 114u8, 101u8] }  // figure
    else if id == 38 { seq![102u8, 111u8, 110u8, 116u8] }  // font
    else if id == 39 { seq![102u8, 111u8, 111u8, 116u8, 101u8, 114u8] }  // footer
    else if id == 40 { seq![102u8, 111u8, 114u8, 109u8] }  // form
    else if id == 41 { seq![102u8, 114u8, 97u8, 109u8, 101u8] }  // frame
    else if id == 42 { seq![102u8, 114u8, 97u8, 109u8, 101u8, 115u8, 101u8, 116u8] }  // frameset
    else if id == 43 { seq![104u8, 49u8] }  // h1
    else if id == 44 { seq![104u8, 50u8] }  // h2
    else if id == 45 { seq![104u8, 51u8] }  // h3
    else if id == 46 { seq![104u8, 52u8] }  // h4
    else if id == 47 { seq![104u8, 53u8] }  // h5
    else if id == 48 { seq![104u8, 54u8] }  // h6
    else if id == 49 { seq![104u8, 101u8, 97u8, 100u8] }  // head
    else if id == 50 { seq![104u8, 101u8, 97u8, 100u8, 101u8, 114u8] }  // header
    else if id == 51 { seq![104u8, 103u8, 114u8, 111u8, 117u8, 112u8] }  // hgroup
    else if id == 52 { seq![104u8, 114u8] }  // hr
    else if id == 53 { seq![104u8, 116u8, 109u8, 108u8] }  // html
    else if id == 54 { seq![105u8] }  // i
    else if id == 55 { seq![105u8, 102u8, 114u8, 97u8, 109u8, 101u8] }  // iframe
    else if id == 56 { seq![105u8, 109u8, 103u8] }  // img
    else if id == 57 { seq![105u8, 110u8, 112u8, 117u8, 116u8] }  // input
    else if id == 58 { seq![105u8, 110u8, 115u8] }  // ins
    else if id == 59 { seq![107u8, 98u8, 100u8] }  // kbd
    else if id == 60 { seq![107u8, 101u8, 121u8, 103u8, 101u8, 110u8] }  // keygen
    else if id == 61 { seq![108u8, 97u8, 98u8, 101u8, 108u8] }  // label
    else if id == 62 { seq![108u8, 101u8, 103u8, 101u8, 110u8, 100u8] }  // legend
    else if id == 63 { seq![108u8, 105u8] }  // li
    else if id == 64 { seq![108u8, 105u8, 110u8, 107u8] }  // link
    else if id == 65 { seq![109u8, 97u8, 105u8, 110u8] }  // main
    else if id == 66 { seq![109u8, 97u8, 112u8] }  // map
    else if id == 67 { seq![109u8, 97u8, 114u8, 107u8] }  // mark
    else if id == 68 { seq![109u8, 101u8, 110u8, 117u8] }  // menu
    else if id == 69 { seq![109u8, 101u8, 116u8, 97u8] }  // meta
    else if id == 70 { seq![109u8, 101u8, 116u8, 101u8, 114u8] }  // meter
    else if id == 71 { seq![110u8, 97u8, 118u8] }  // nav
    else if id == 72 { seq![110u8, 111u8, 98u8, 114u8] }  // nobr
    else if id == 73 { seq![110u8, 111u8, 101u8, 109u8, 98u8, 101u8, 100u8] }  // noembed
    else if id == 74 { seq![110u8, 111u8, 102u8, 114u8, 97u8, 109u8, 101u8, 115u8] }  // noframes
    else if id == 75 { seq![110u8, 111u8, 115u8, 99u8, 114u8, 105u8, 112u8, 116u8] }  // noscript
    else if id == 76 { seq![111u8, 98u8, 106u8, 101u8, 99u8, 116u8] }  // object
    else if id == 77 { seq![111u8, 108u8] }  // ol
    else if id == 78 { seq![111u8, 112u8, 116u8, 103u8, 114u8, 111u8, 117u8, 112u8] }  // optgroup
    else if id == 79 { seq![111u8, 112u8, 116u8, 105u8, 111u8, 110u8] }  // option
    else if id == 80 { seq![111u8, 117u8, 116u8, 112u8, 117u8, 116u8] }  // output
    else if id == 81 { seq![112u8] }  // p
    else if id == 82 { seq![112u8, 97u8, 114u8, 97u8, 109u8] }  // param
    else if id == 83 { seq![112u8, 105u8, 99u8, 116u8, 117u8, 114u8, 101u8] }  // picture
    else if id == 84 { seq![112u8, 108u8, 97u8, 105u8, 110u8, 116u8, 101u8, 120u8, 116u8] }  // plaintext
    else if id == 85 { seq![112u8, 114u8, 101u8] }  // pre
    else if id == 86 { seq![112u8, 114u8, 111u8, 103u8, 114u8, 101u8, 115u8, 115u8] }  // progress
    else if id == 87 { seq![113u8] }  // q
    else if id == 88 { seq![114u8, 112u8] }  // rp
    else if id == 89 { seq![114u8, 116u8] }  // rt
    else if id == 90 { seq![114u8, 117u8, 98u8, 121u8] }  // ruby
    else if id == 91 { seq![115u8] }  // s
    else if id == 92 { seq![115u8, 97u8, 109u8, 112u8] }  // samp
    else if id == 93 { seq![115u8, 99u8, 114u8, 105u8, 112u8, 116u8] }  // script
    else if id == 94 { seq![115u8, 101u8, 97u8, 114u8, 99u8, 104u8] }  // search
    else if id == 95 { seq![115u8, 101u8, 99u8, 116u8, 105u8, 111u8, 110u8] }  // section
    else if id == 96 { seq![115u8, 101u8, 108u8, 101u8, 99u8, 116u8] }  // select
    else if id == 97 { seq![115u8, 109u8, 97u8, 108u8, 108u8] }  // small
    else if id == 98 { seq![115u8, 111u8, 117u8, 114u8, 99u8, 101u8] }  // source
    else if id == 99 { seq![115u8, 112u8, 97u8, 110u8] }  // span
    else if id == 100 { seq![115u8, 116u8, 114u8, 105u8, 107u8, 101u8] }  // strike
    else if id == 101 { seq![115u8, 116u8, 114u8, 111u8, 110u8, 103u8] }  // strong
    else if id == 102 { seq![115u8, 116u8, 121u8, 108u8, 101u8] }  // style
    else if id == 103 { seq![115u8, 117u8, 98u8] }  // sub
    else if id == 104 { seq![115u8, 117u8, 109u8, 109u8, 97u8, 114u8, 121u8] }  // summary
    else if id == 105 { seq![115u8, 117u8, 112u8] }  // sup
    else if id == 106 { seq![115u8, 118u8, 103u8] }  // svg
    else if id == 107 { seq![116u8, 97u8, 98u8, 108u8, 101u8] }  // table
    else if id == 108 { seq![116u8, 98u8, 111u8, 100u8, 121u8] }  // tbody
    else if id == 109 { seq![116u8, 100u8] }  // td
    else if id == 110 { seq![116u8, 101u8, 109u8, 112u8, 108u8, 97u8, 116u8, 101u8] }  // template
    else if id == 111 { seq![116u8, 101u8, 120u8, 116u8, 97u8, 114u8, 101u8, 97u8] }  // textarea
    else if id == 112 { seq![116u8, 102u8, 111u8, 111u8, 116u8] }  // tfoot
    else if id == 113 { seq![116u8, 104u8] }  // th
    else if id == 114 { seq![116u8, 104u8, 101u8, 97u8, 100u8] }  // thead
    else if id == 115 { seq![116u8, 105u8, 109u8, 101u8] }  // time
    else if id == 116 { seq![116u8, 105u8, 116u8, 108u8, 101u8] }  // title
    else if id == 117 { seq![116u8, 114u8] }  // tr
    else if id == 118 { seq![116u8, 114u8, 97u8, 99u8, 107u8] }  // track
    else if id == 119 { seq![116u8, 116u8] }  // tt
    else if id == 120 { seq![117u8] }  // u
    else if id == 121 { seq![117u8, 108u8] }  // ul
    else if id == 122 { seq![118u8, 97u8, 114u8] }  // var
    else if id == 123 { seq![118u8, 105u8, 100u8, 101u8, 111u8] }  // video
    else if id == 124 { seq![119u8, 98u8, 114u8] }  // wbr
    else if id == 125 { seq![120u8, 109u8, 112u8] }  // xmp
    else { Seq::empty() }
}

/// The first id from `id` on whose name is `n`.
pub open spec fn find_tag(n: Seq<u8>, id: int) -> Option<u8>
    decreases MAX_TAG_ID - id,
{
    if id < 0 || id >= MAX_TAG_ID {
        None
    } else if tag_name_spec(id as u8) == n {
        Some(id as u8)
    } else {
        find_tag(n, id + 1)
    }
}

/// The id of the element named `n` (already lower case).
pub open spec fn tag_id_of(n: Seq<u8>) -> Option<u8> {
    find_tag(n, 0)
}

/// The lower-case name of the element with the given id.
pub fn tag_name(id: u8) -> (r: Vec<u8>)
    ensures
        r@ == tag_name_spec(id),
{
    match id {
        0 => vec![97u8],
        1 => vec![97u8, 98u8, 98u8, 114u8],
        2 => vec![97u8, 100u8, 100u8, 114u8, 101u8, 115u8, 115u8],
        3 => vec![97u8, 114u8, 101u8, 97u8],
        4 => vec![97u8, 114u8, 116u8, 105u8, 99u8, 108u8, 101u8],
        5 => vec![97u8, 115u8, 105u8, 100u8, 101u8],
        6 => vec![97u8, 117u8, 100u8, 105u8, 111u8],
        7 => vec![98u8],
        8 => vec![98u8, 97u8, 115u8, 101u8],
        9 => vec![98u8, 100u8, 105u8],
        10 => vec![98u8, 100u8, 111u8],
        11 => vec![98u8, 105u8, 103u8],
        12 => vec![98u8, 108u8, 111u8, 99u8, 107u8, 113u8, 117u8, 111u8, 116u8, 101u8],
        13 => vec![98u8, 111u8, 100u8, 121u8],
        14 => vec![98u8, 114u8],
        15 => vec![98u8, 117u8, 116u8, 116u8, 111u8, 110u8],
        16 => vec![99u8, 97u8, 110u8, 118u8, 97u8, 115u8],
        17 => vec![99u8, 97u8, 112u8, 116u8, 105u8, 111u8, 110u8],
        18 => vec![99u8, 101u8, 110u8, 116u8, 101u8, 114u8],
        19 => vec![99u8, 105u8, 116u8, 101u8],
        20 => vec![99u8, 111u8, 100u8, 101u8],
        21 => vec![99u8, 111u8, 108u8],
        22 => vec![99u8, 111u8, 108u8, 103u8, 114u8, 111u8, 117u8, 112u8],
        23 => vec![100u8, 97u8, 116u8, 97u8],
        24 => vec![100u8, 97u8, 116u8, 97u8, 108u8, 105u8, 115u8, 116u8],
        25 => vec![100u8, 100u8],
        26 => vec![100u8, 101u8, 108u8],
        27 => vec![100u8, 101u8, 116u8, 97u8, 105u8, 108u8, 115u8],
        28 => vec![100u8, 102u8, 110u8],
        29 => vec![100u8, 105u8, 97u8, 108u8, 111u8, 103u8],
        30 => vec![100u8, 105u8, 118u8],
        31 => vec![100u8, 108u8],
        32 => vec![100u8, 116u8],
        33 => vec![101u8, 109u8],
        34 => vec![101u8, 109u8, 98u8, 101u8, 100u8],
        35 => vec![102u8, 105u8, 101u8, 108u8, 100u8, 115u8, 101u8, 116u8],
        36 => vec![102u8, 105u8, 103u8, 99u8, 97u8, 112u8, 116u8, 105u8, 111u8, 110u8],
        37 => vec![102u8, 105u8, 103u8, 117u8, 114u8, 101u8],
        38 => vec![102u8, 111u8, 110u8, 116u8],
        39 => vec![102u8, 111u8, 111u8, 116u8, 101u8, 114u8],
        40 => vec![102u8, 111u8, 114u8, 109u8],
        41 => vec![102u8, 114u8, 97u8, 109u8, 101u8],
        42 => vec![102u8, 114u8, 97u8, 109u8, 101u8, 115u8, 101u8, 116u8],
        43 => vec![104u8, 49u8],
        44 => vec![104u8, 50u8],
        45 => vec![104u8, 51u8],
        46 => vec![104u8, 52u8],
        47 => vec![104u8, 53u8],
        48 => vec![104u8, 54u8],
        49 => vec![104u8, 101u8, 97u8, 100u8],
        50 => vec![104u8, 101u8, 97u8, 100u8, 101u8, 114u8],
        51 => vec![104u8, 103u8, 114u8, 111u8, 117u8, 112u8],
        52 => vec![104u8, 114u8],
        53 => vec![104u8, 116u8, 109u8, 108u8],
        54 => vec![105u8],
        55 => vec![105u8, 102u8, 114u8, 97u8, 109u8, 101u8],
        56 => vec![105u8, 109u8, 103u8],
        57 => vec![105u8, 110u8, 112u8, 117u8, 116u8],
        58 => vec![105u8, 110u8, 115u8],
        59 => vec![107u8, 98u8, 100u8],
        60 => vec![107u8, 101u8, 121u8, 103u8, 101u8, 110u8],
        61 => vec![108u8, 97u8, 98u8, 101u8, 108u8],
        62 => vec![108u8, 101u8, 103u8, 101u8, 110u8, 100u8],
        63 => vec![108u8, 105u8],
        64 => vec![108u8, 105u8, 110u8, 107u8],
        65 => vec![109u8, 97u8, 105u8, 110u8],
        66 => vec![109u8, 97u8, 112u8],
        67 => vec![109u8, 97u8, 114u8, 107u8],
        68 => vec![109u8, 101u8, 110u8, 117u8],
        69 => vec![109u8, 101u8, 116u8, 97u8],
        70 => vec![109u8, 101u8, 116u8, 101u8, 114u8],
        71 => vec![110u8, 97u8, 118u8],
        72 => vec![110u8, 111u8, 98u8, 114u8],
        73 => vec![110u8, 111u8, 101u8, 109u8, 98u8, 101u8, 100u8],
        74 => vec![110u8, 111u8, 102u8, 114u8, 97u8, 109u8, 101u8, 115u8],
        75 => vec![110u8, 111u8, 115u8, 99u8, 114u8, 105u8, 112u8, 116u8],
        76 => vec![111u8, 98u8, 106u8, 101u8, 99u8, 116u8],
        77 => vec![111u8, 108u8],
        78 => vec![111u8, 112u8, 116u8, 103u8, 114u8, 111u8, 117u8, 112u8],
        79 => vec![111u8, 112u8, 116u8, 105u8, 111u8, 110u8],
        80 => vec![111u8, 117u8, 116u8, 112u8, 117u8, 116u8],
        81 => vec![112u8],
        82 => vec![112u8, 97u8, 114u8, 97u8, 109u8],
        83 => vec![112u8, 105u8, 99u8, 116u8, 117u8, 114u8, 101u8],
        84 => vec![112u8, 108u8, 97u8, 105u8, 110u8, 116u8, 101u8, 120u8, 116u8],
        85 => vec![112u8, 114u8, 101u8],
        86 => vec![112u8, 114u8, 111u8, 103u8, 114u8, 101u8, 115u8, 115u8],
        87 => vec![113u8],
        88 => vec![114u8, 112u8],
        89 => vec![114u8, 116u8],
        90 => vec![114u8, 117u8, 98u8, 121u8],
        91 => vec![115u8],
        92 => vec![115u8, 97u8, 109u8, 112u8],
        93 => vec![115u8, 99u8, 114u8, 105u8, 112u8, 116u8],
        94 => vec![115u8, 101u8, 97u8, 114u8, 99u8, 104u8],
        95 => vec![115u8, 101u8, 99u8, 116u8, 105u8, 111u8, 110u8],
        96 => vec![115u8, 101u8, 108u8, 101u8, 99u8, 116u8],
        97 => vec![115u8, 109u8, 97u8, 108u8, 108u8],
        98 => vec![115u8, 111u8, 117u8, 114u8, 99u8, 101u8],
        99 => vec![115u8, 112u8, 97u8, 110u8],
        100 => vec![115u8, 116u8, 114u8, 105u8, 107u8, 101u8],
        101 => vec![115u8, 116u8, 114u8, 111u8, 110u8, 103u8],
        102 => vec![115u8, 116u8, 121u8, 108u8, 101u8],
        103 => vec![115u8, 117u8, 98u8],
        104 => vec![115u8, 117u8, 109u8, 109u8, 97u8, 114u8, 121u8],
        105 => vec![115u8, 117u8, 112u8],
        106 => vec![115u8, 118u8, 103u8],
        107 => vec![116u8, 97u8, 98u8, 108u8, 101u8],
        108 => vec![116u8, 98u8, 111u8, 100u8, 121u8],
        109 => vec![116u8, 100u8],
        110 => vec![116u8, 101u8, 109u8, 112u8, 108u8, 97u8, 116u8, 101u8],
        111 => vec![116u8, 101u8, 120u8, 116u8, 97u8, 114u8, 101u8, 97u8],
        112 => vec![116u8, 102u8, 111u8, 111u8, 116u8],
        113 => vec![116u8, 104u8],
        114 => vec![116u8, 104u8, 101u8, 97u8, 100u8],
        115 => vec![116u8, 105u8, 109u8, 101u8],
        116 => vec![116u8, 105u8, 116u8, 108u8, 101u8],
        117 => vec![116u8, 114u8],
        118 => vec![116u8, 114u8, 97u8, 99u8, 107u8],
        119 => vec![116u8, 116u8],
        120 => vec![117u8],
        121 => vec![117u8, 108u8],
        122 => vec![118u8, 97u8, 114u8],
        123 => vec![118u8, 105u8, 100u8, 101u8, 111u8],
        124 => vec![119u8, 98u8, 114u8],
        125 => vec![120u8, 109u8, 112u8],
        _ => Vec::new(),
    }
}

/// The id of the element named `n`.
pub fn lookup_tag(n: &[u8]) -> (r: Option<u8>)
    ensures
        r == tag_id_of(n@),
        r matches Some(id) ==> (id as int) < MAX_TAG_ID,
{
    let mut id: usize = 0;
    while id < MAX_TAG_ID
        invariant
            id <= MAX_TAG_ID,
            find_tag(n@, 0) == find_tag(n@, id as int),
            forall|k: int| 0 <= k < id ==> find_tag(n@, k) == find_tag(n@, id as int),
        decreases MAX_TAG_ID - id,
    {
        let name = tag_name(id as u8);
        if bytes_eq(n, name.as_slice()) {
            return Some(id as u8);
        }
        id = id + 1;
    }
    None
}

/// The id of the element named `name`, compared ASCII case-insensitively.
pub fn get_tag_id_ci_bytes(name: &[u8]) -> (r: Option<u8>)
    ensures
        r == tag_id_of(lower_seq(name@)),
        r matches Some(id) ==> (id as int) < MAX_TAG_ID,
{
    let n = to_ascii_lowercase(name);
    lookup_tag(n.as_slice())
}

/// The id of the element named `name` (exact, lower-case match).
pub fn get_tag_id(name: &str) -> (r: Option<u8>)
    ensures
        r == tag_id_of(name.spec_bytes()),
        r matches Some(id) ==> (id as int) < MAX_TAG_ID,
{
    lookup_tag(name.as_bytes())
}

} // verus!
