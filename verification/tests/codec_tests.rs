//! Decoding and encoding against reconstructed vendor layouts.

use xingapi::data::{decode_block, decode_block_array, decode_non_block, encode, Block, BlockMap, Data, DataType, Record};
use xingapi::data::error::EncodeError;
use xingapi::layout::{self, HeaderType, TrLayout};
use xingapi::table::merge_layouts;

const T1101_RES: &str = "BEGIN_FUNCTION_MAP\n .Func, marketdata, t1101, attr, block, headtype=A;\nBEGIN_DATA_MAP\nt1101OutBlock, outputs, output;\nbegin\n    hname, hname, hname, char, 20;\n    price, price, price, char, 8;\n    sign, sign, sign, char, 1;\n    change, change, change, char, 8;\n    diff, diff, diff, char, 6;\n    volume, volume, volume, char, 12;\n    jnilclose, jnilclose, jnilclose, char, 8;\n    offerho1, offerho1, offerho1, char, 8;\n    bidho1, bidho1, bidho1, char, 8;\n    offerrem1, offerrem1, offerrem1, char, 12;\n    bidrem1, bidrem1, bidrem1, char, 12;\n    preoffercha1, preoffercha1, preoffercha1, char, 12;\n    prebidcha1, prebidcha1, prebidcha1, char, 12;\n    offerho2, offerho2, offerho2, char, 8;\n    bidho2, bidho2, bidho2, char, 8;\n    offerrem2, offerrem2, offerrem2, char, 12;\n    bidrem2, bidrem2, bidrem2, char, 12;\n    preoffercha2, preoffercha2, preoffercha2, char, 12;\n    prebidcha2, prebidcha2, prebidcha2, char, 12;\n    offerho3, offerho3, offerho3, char, 8;\n    bidho3, bidho3, bidho3, char, 8;\n    offerrem3, offerrem3, offerrem3, char, 12;\n    bidrem3, bidrem3, bidrem3, char, 12;\n    preoffercha3, preoffercha3, preoffercha3, char, 12;\n    prebidcha3, prebidcha3, prebidcha3, char, 12;\n    offerho4, offerho4, offerho4, char, 8;\n    bidho4, bidho4, bidho4, char, 8;\n    offerrem4, offerrem4, offerrem4, char, 12;\n    bidrem4, bidrem4, bidrem4, char, 12;\n    preoffercha4, preoffercha4, preoffercha4, char, 12;\n    prebidcha4, prebidcha4, prebidcha4, char, 12;\n    offerho5, offerho5, offerho5, char, 8;\n    bidho5, bidho5, bidho5, char, 8;\n    offerrem5, offerrem5, offerrem5, char, 12;\n    bidrem5, bidrem5, bidrem5, char, 12;\n    preoffercha5, preoffercha5, preoffercha5, char, 12;\n    prebidcha5, prebidcha5, prebidcha5, char, 12;\n    offerho6, offerho6, offerho6, char, 8;\n    bidho6, bidho6, bidho6, char, 8;\n    offerrem6, offerrem6, offerrem6, char, 12;\n    bidrem6, bidrem6, bidrem6, char, 12;\n    preoffercha6, preoffercha6, preoffercha6, char, 12;\n    prebidcha6, prebidcha6, prebidcha6, char, 12;\n    offerho7, offerho7, offerho7, char, 8;\n    bidho7, bidho7, bidho7, char, 8;\n    offerrem7, offerrem7, offerrem7, char, 12;\n    bidrem7, bidrem7, bidrem7, char, 12;\n    preoffercha7, preoffercha7, preoffercha7, char, 12;\n    prebidcha7, prebidcha7, prebidcha7, char, 12;\n    offerho8, offerho8, offerho8, char, 8;\n    bidho8, bidho8, bidho8, char, 8;\n    offerrem8, offerrem8, offerrem8, char, 12;\n    bidrem8, bidrem8, bidrem8, char, 12;\n    preoffercha8, preoffercha8, preoffercha8, char, 12;\n    prebidcha8, prebidcha8, prebidcha8, char, 12;\n    offerho9, offerho9, offerho9, char, 8;\n    bidho9, bidho9, bidho9, char, 8;\n    offerrem9, offerrem9, offerrem9, char, 12;\n    bidrem9, bidrem9, bidrem9, char, 12;\n    preoffercha9, preoffercha9, preoffercha9, char, 12;\n    prebidcha9, prebidcha9, prebidcha9, char, 12;\n    offerho10, offerho10, offerho10, char, 8;\n    bidho10, bidho10, bidho10, char, 8;\n    offerrem10, offerrem10, offerrem10, char, 12;\n    bidrem10, bidrem10, bidrem10, char, 12;\n    preoffercha10, preoffercha10, preoffercha10, char, 12;\n    prebidcha10, prebidcha10, prebidcha10, char, 12;\n    offer, offer, offer, char, 12;\n    bid, bid, bid, char, 12;\n    preoffercha, preoffercha, preoffercha, char, 12;\n    prebidcha, prebidcha, prebidcha, char, 12;\n    hotime, hotime, hotime, char, 8;\n    yeprice, yeprice, yeprice, char, 8;\n    yevolume, yevolume, yevolume, char, 12;\n    yesign, yesign, yesign, char, 1;\n    yechange, yechange, yechange, char, 8;\n    yediff, yediff, yediff, char, 6;\n    tmoffer, tmoffer, tmoffer, char, 12;\n    tmbid, tmbid, tmbid, char, 12;\n    ho_status, ho_status, ho_status, char, 1;\n    shcode, shcode, shcode, char, 6;\n    uplmtprice, uplmtprice, uplmtprice, char, 8;\n    dnlmtprice, dnlmtprice, dnlmtprice, char, 8;\n    open, open, open, char, 8;\n    high, high, high, char, 8;\n    low, low, low, char, 8;\nend\nEND_DATA_MAP\n";

const T1104_RES: &str = "BEGIN_FUNCTION_MAP\n .Func, quotes, t1104, block, headtype=A;\nBEGIN_DATA_MAP\nt1104InBlock, inputs, input;\nbegin\n    ticker, code, code, char, 6;\n    nrecords, nrec, nrec, char, 2;\nend\nt1104InBlock1, initems, input, occurs;\nbegin\n    index, indx, indx, char, 1;\n    kind, gubn, gubn, char, 1;\n    firstdate, dat1, dat1, char, 1;\n    seconddate, dat2, dat2, char, 8;\nend\nt1104OutBlock1, outitems, output, occurs;\nbegin\n    index, indx, indx, char, 1;\n    kind, gubn, gubn, char, 1;\n    value, vals, vals, char, 8;\nend\nEND_DATA_MAP\n";

const T1101_DATA: &[u8] = &[
    0xc0, 0xcc, 0xba, 0xa3, 0xbd, 0xba, 0xc6, 0xae, 0xc5, 0xf5, 0xc0, 0xda, 0xc1, 0xf5, 0xb1, 0xc7,
    0x20, 0x20, 0x20, 0x20, 0xb0, 0x30, 0x30, 0x30, 0x30, 0x36, 0x30, 0x30, 0x30, 0xb0, 0x32, 0xb0,
    0x30, 0x30, 0x30, 0x30, 0x30, 0x30, 0x39, 0x30, 0xb0, 0x30, 0x30, 0x31, 0x2e, 0x35, 0x32, 0xb0,
    0x30, 0x30, 0x30, 0x30, 0x30, 0x30, 0x31, 0x30, 0x39, 0x32, 0x31, 0x34, 0x20, 0x30, 0x30, 0x30,
    0x30, 0x35, 0x39, 0x31, 0x30, 0xb0, 0x30, 0x30, 0x30, 0x30, 0x36, 0x30, 0x30, 0x30, 0xb0, 0x30,
    0x30, 0x30, 0x30, 0x35, 0x39, 0x39, 0x30, 0xb0, 0x30, 0x30, 0x30, 0x30, 0x30, 0x30, 0x30, 0x30,
    0x34, 0x32, 0x30, 0x37, 0x20, 0x30, 0x30, 0x30, 0x30, 0x30, 0x30, 0x30, 0x30, 0x32, 0x36, 0x32,
    0x30, 0x20, 0x30, 0x30, 0x30, 0x30, 0x30, 0x30, 0x30, 0x30, 0x30, 0x30, 0x30, 0x30, 0x20, 0x30,
    0x30, 0x30, 0x30, 0x30, 0x30, 0x30, 0x30, 0x30, 0x30, 0x30, 0x30, 0x20, 0x30, 0x30, 0x30, 0x30,
    0x36, 0x30, 0x31, 0x30, 0xb0, 0x30, 0x30, 0x30, 0x30, 0x35, 0x39, 0x38, 0x30, 0xb0, 0x30, 0x30,
    0x30, 0x30, 0x30, 0x30, 0x30, 0x30, 0x31, 0x32, 0x38, 0x38, 0x20, 0x30, 0x30, 0x30, 0x30, 0x30,
    0x30, 0x30, 0x30, 0x30, 0x35, 0x37, 0x37, 0x20, 0x30, 0x30, 0x30, 0x30, 0x30, 0x30, 0x30, 0x30,
    0x30, 0x30, 0x30, 0x30, 0x20, 0x30, 0x30, 0x30, 0x30, 0x30, 0x30, 0x30, 0x30, 0x30, 0x30, 0x30,
    0x30, 0x20, 0x30, 0x30, 0x30, 0x30, 0x36, 0x30, 0x32, 0x30, 0xb0, 0x30, 0x30, 0x30, 0x30, 0x35,
    0x39, 0x37, 0x30, 0xb0, 0x30, 0x30, 0x30, 0x30, 0x30, 0x30, 0x30, 0x30, 0x31, 0x32, 0x36, 0x36,
    0x20, 0x30, 0x30, 0x30, 0x30, 0x30, 0x30, 0x30, 0x32, 0x32, 0x32, 0x34, 0x38, 0x20, 0x30, 0x30,
    0x30, 0x30, 0x30, 0x30, 0x30, 0x30, 0x30, 0x30, 0x30, 0x30, 0x20, 0x30, 0x30, 0x30, 0x30, 0x30,
    0x30, 0x30, 0x30, 0x30, 0x30, 0x30, 0x30, 0x20, 0x30, 0x30, 0x30, 0x30, 0x36, 0x30, 0x33, 0x30,
    0xb0, 0x30, 0x30, 0x30, 0x30, 0x35, 0x39, 0x36, 0x30, 0xb0, 0x30, 0x30, 0x30, 0x30, 0x30, 0x30,
    0x30, 0x30, 0x30, 0x37, 0x31, 0x32, 0x20, 0x30, 0x30, 0x30, 0x30, 0x30, 0x30, 0x30, 0x30, 0x31,
    0x30, 0x39, 0x38, 0x20, 0x30, 0x30, 0x30, 0x30, 0x30, 0x30, 0x30, 0x30, 0x30, 0x30, 0x30, 0x30,
    0x20, 0x30, 0x30, 0x30, 0x30, 0x30, 0x30, 0x30, 0x30, 0x30, 0x30, 0x30, 0x30, 0x20, 0x30, 0x30,
    0x30, 0x30, 0x36, 0x30, 0x34, 0x30, 0xb0, 0x30, 0x30, 0x30, 0x30, 0x35, 0x39, 0x35, 0x30, 0xb0,
    0x30, 0x30, 0x30, 0x30, 0x30, 0x30, 0x30, 0x30, 0x30, 0x35, 0x38, 0x39, 0x20, 0x30, 0x30, 0x30,
    0x30, 0x30, 0x30, 0x30, 0x30, 0x31, 0x36, 0x38, 0x38, 0x20, 0x30, 0x30, 0x30, 0x30, 0x30, 0x30,
    0x30, 0x30, 0x30, 0x30, 0x30, 0x30, 0x20, 0x30, 0x30, 0x30, 0x30, 0x30, 0x30, 0x30, 0x30, 0x30,
    0x30, 0x30, 0x30, 0x20, 0x30, 0x30, 0x30, 0x30, 0x36, 0x30, 0x35, 0x30, 0xb0, 0x30, 0x30, 0x30,
    0x30, 0x35, 0x39, 0x34, 0x30, 0xb0, 0x30, 0x30, 0x30, 0x30, 0x30, 0x30, 0x30, 0x30, 0x30, 0x35,
    0x36, 0x33, 0x20, 0x30, 0x30, 0x30, 0x30, 0x30, 0x30, 0x30, 0x30, 0x31, 0x32, 0x32, 0x31, 0x20,
    0x30, 0x30, 0x30, 0x30, 0x30, 0x30, 0x30, 0x30, 0x30, 0x30, 0x30, 0x30, 0x20, 0x30, 0x30, 0x30,
    0x30, 0x30, 0x30, 0x30, 0x30, 0x30, 0x30, 0x30, 0x30, 0x20, 0x30, 0x30, 0x30, 0x30, 0x36, 0x30,
    0x36, 0x30, 0xb0, 0x30, 0x30, 0x30, 0x30, 0x35, 0x39, 0x33, 0x30, 0xb0, 0x30, 0x30, 0x30, 0x30,
    0x30, 0x30, 0x30, 0x30, 0x30, 0x33, 0x38, 0x31, 0x20, 0x30, 0x30, 0x30, 0x30, 0x30, 0x30, 0x30,
    0x30, 0x32, 0x35, 0x30, 0x31, 0x20, 0x30, 0x30, 0x30, 0x30, 0x30, 0x30, 0x30, 0x30, 0x30, 0x30,
    0x30, 0x30, 0x20, 0x30, 0x30, 0x30, 0x30, 0x30, 0x30, 0x30, 0x30, 0x30, 0x30, 0x30, 0x30, 0x20,
    0x30, 0x30, 0x30, 0x30, 0x36, 0x30, 0x37, 0x30, 0xb0, 0x30, 0x30, 0x30, 0x30, 0x35, 0x39, 0x32,
    0x30, 0xb0, 0x30, 0x30, 0x30, 0x30, 0x30, 0x30, 0x30, 0x30, 0x30, 0x34, 0x31, 0x32, 0x20, 0x30,
    0x30, 0x30, 0x30, 0x30, 0x30, 0x30, 0x30, 0x31, 0x31, 0x36, 0x37, 0x20, 0x30, 0x30, 0x30, 0x30,
    0x30, 0x30, 0x30, 0x30, 0x30, 0x30, 0x30, 0x30, 0x20, 0x30, 0x30, 0x30, 0x30, 0x30, 0x30, 0x30,
    0x30, 0x30, 0x30, 0x30, 0x30, 0x20, 0x30, 0x30, 0x30, 0x30, 0x36, 0x30, 0x38, 0x30, 0xb0, 0x30,
    0x30, 0x30, 0x30, 0x35, 0x39, 0x31, 0x30, 0xc0, 0x30, 0x30, 0x30, 0x30, 0x30, 0x30, 0x30, 0x30,
    0x30, 0x32, 0x32, 0x35, 0x20, 0x30, 0x30, 0x30, 0x30, 0x30, 0x30, 0x30, 0x30, 0x30, 0x37, 0x30,
    0x31, 0x20, 0x30, 0x30, 0x30, 0x30, 0x30, 0x30, 0x30, 0x30, 0x30, 0x30, 0x30, 0x30, 0x20, 0x30,
    0x30, 0x30, 0x30, 0x30, 0x30, 0x30, 0x30, 0x30, 0x30, 0x30, 0x30, 0x20, 0x30, 0x30, 0x30, 0x30,
    0x36, 0x30, 0x39, 0x30, 0xb0, 0x30, 0x30, 0x30, 0x30, 0x35, 0x39, 0x30, 0x30, 0xa0, 0x30, 0x30,
    0x30, 0x30, 0x30, 0x30, 0x30, 0x30, 0x30, 0x36, 0x34, 0x30, 0x20, 0x30, 0x30, 0x30, 0x30, 0x30,
    0x30, 0x30, 0x30, 0x30, 0x37, 0x37, 0x37, 0x20, 0x30, 0x30, 0x30, 0x30, 0x30, 0x30, 0x30, 0x30,
    0x30, 0x30, 0x30, 0x30, 0x20, 0x30, 0x30, 0x30, 0x30, 0x30, 0x30, 0x30, 0x30, 0x30, 0x30, 0x30,
    0x30, 0x20, 0x30, 0x30, 0x30, 0x30, 0x30, 0x30, 0x30, 0x31, 0x30, 0x32, 0x38, 0x33, 0xa0, 0x30,
    0x30, 0x30, 0x30, 0x30, 0x30, 0x30, 0x33, 0x34, 0x35, 0x39, 0x38, 0xb0, 0x2d, 0x30, 0x30, 0x30,
    0x30, 0x30, 0x30, 0x31, 0x31, 0x35, 0x38, 0x35, 0xa0, 0x2d, 0x30, 0x30, 0x30, 0x30, 0x30, 0x30,
    0x33, 0x35, 0x39, 0x33, 0x31, 0xa0, 0x31, 0x36, 0x30, 0x30, 0x30, 0x31, 0x31, 0x32, 0x20, 0x30,
    0x30, 0x30, 0x30, 0x30, 0x30, 0x30, 0x30, 0xc0, 0x30, 0x30, 0x30, 0x30, 0x30, 0x30, 0x30, 0x30,
    0x30, 0x30, 0x30, 0x30, 0x20, 0x33, 0xc0, 0x30, 0x30, 0x30, 0x30, 0x30, 0x30, 0x30, 0x30, 0xc0,
    0x30, 0x30, 0x30, 0x2e, 0x30, 0x30, 0xc0, 0x30, 0x30, 0x30, 0x30, 0x30, 0x30, 0x30, 0x30, 0x30,
    0x30, 0x30, 0x30, 0xb0, 0x30, 0x30, 0x30, 0x30, 0x30, 0x30, 0x30, 0x30, 0x30, 0x30, 0x39, 0x38,
    0xa0, 0x32, 0x20, 0x30, 0x37, 0x38, 0x30, 0x32, 0x30, 0x20, 0x30, 0x30, 0x30, 0x30, 0x37, 0x36,
    0x38, 0x30, 0xb0, 0x30, 0x30, 0x30, 0x30, 0x34, 0x31, 0x34, 0x30, 0xa0, 0x30, 0x30, 0x30, 0x30,
    0x35, 0x39, 0x31, 0x30, 0xb0, 0x30, 0x30, 0x30, 0x30, 0x36, 0x30, 0x30, 0x30, 0xb0, 0x30, 0x30,
    0x30, 0x30, 0x35, 0x38, 0x37, 0x30, 0xb0,
];

fn layout_table() -> xingapi::table::LayoutTable {
    let layouts = vec![
        layout::load(T1101_RES).unwrap(),
        layout::load(T1104_RES).unwrap(),
    ];
    merge_layouts(layouts).unwrap()
}

fn find_out_block<'a>(tr: &'a TrLayout, name: &str) -> &'a xingapi::layout::BlockLayout {
    tr.out_blocks.iter().find(|b| b.name == name).unwrap()
}

fn t1101_expected() -> Record {
    let mut expected = Record::new();
    expected.insert("hname".to_string(), "이베스트투자증권".to_string());
    expected.insert("price".to_string(), "00006000".to_string());
    expected.insert("sign".to_string(), "2".to_string());
    expected.insert("change".to_string(), "00000090".to_string());
    expected.insert("diff".to_string(), "001.52".to_string());
    expected.insert("volume".to_string(), "000000109214".to_string());
    expected.insert("jnilclose".to_string(), "00005910".to_string());
    expected.insert("offerho1".to_string(), "00006000".to_string());
    expected.insert("bidho1".to_string(), "00005990".to_string());
    expected.insert("offerrem1".to_string(), "000000004207".to_string());
    expected.insert("bidrem1".to_string(), "000000002620".to_string());
    expected.insert("preoffercha1".to_string(), "000000000000".to_string());
    expected.insert("prebidcha1".to_string(), "000000000000".to_string());
    expected.insert("offerho2".to_string(), "00006010".to_string());
    expected.insert("bidho2".to_string(), "00005980".to_string());
    expected.insert("offerrem2".to_string(), "000000001288".to_string());
    expected.insert("bidrem2".to_string(), "000000000577".to_string());
    expected.insert("preoffercha2".to_string(), "000000000000".to_string());
    expected.insert("prebidcha2".to_string(), "000000000000".to_string());
    expected.insert("offerho3".to_string(), "00006020".to_string());
    expected.insert("bidho3".to_string(), "00005970".to_string());
    expected.insert("offerrem3".to_string(), "000000001266".to_string());
    expected.insert("bidrem3".to_string(), "000000022248".to_string());
    expected.insert("preoffercha3".to_string(), "000000000000".to_string());
    expected.insert("prebidcha3".to_string(), "000000000000".to_string());
    expected.insert("offerho4".to_string(), "00006030".to_string());
    expected.insert("bidho4".to_string(), "00005960".to_string());
    expected.insert("offerrem4".to_string(), "000000000712".to_string());
    expected.insert("bidrem4".to_string(), "000000001098".to_string());
    expected.insert("preoffercha4".to_string(), "000000000000".to_string());
    expected.insert("prebidcha4".to_string(), "000000000000".to_string());
    expected.insert("offerho5".to_string(), "00006040".to_string());
    expected.insert("bidho5".to_string(), "00005950".to_string());
    expected.insert("offerrem5".to_string(), "000000000589".to_string());
    expected.insert("bidrem5".to_string(), "000000001688".to_string());
    expected.insert("preoffercha5".to_string(), "000000000000".to_string());
    expected.insert("prebidcha5".to_string(), "000000000000".to_string());
    expected.insert("offerho6".to_string(), "00006050".to_string());
    expected.insert("bidho6".to_string(), "00005940".to_string());
    expected.insert("offerrem6".to_string(), "000000000563".to_string());
    expected.insert("bidrem6".to_string(), "000000001221".to_string());
    expected.insert("preoffercha6".to_string(), "000000000000".to_string());
    expected.insert("prebidcha6".to_string(), "000000000000".to_string());
    expected.insert("offerho7".to_string(), "00006060".to_string());
    expected.insert("bidho7".to_string(), "00005930".to_string());
    expected.insert("offerrem7".to_string(), "000000000381".to_string());
    expected.insert("bidrem7".to_string(), "000000002501".to_string());
    expected.insert("preoffercha7".to_string(), "000000000000".to_string());
    expected.insert("prebidcha7".to_string(), "000000000000".to_string());
    expected.insert("offerho8".to_string(), "00006070".to_string());
    expected.insert("bidho8".to_string(), "00005920".to_string());
    expected.insert("offerrem8".to_string(), "000000000412".to_string());
    expected.insert("bidrem8".to_string(), "000000001167".to_string());
    expected.insert("preoffercha8".to_string(), "000000000000".to_string());
    expected.insert("prebidcha8".to_string(), "000000000000".to_string());
    expected.insert("offerho9".to_string(), "00006080".to_string());
    expected.insert("bidho9".to_string(), "00005910".to_string());
    expected.insert("offerrem9".to_string(), "000000000225".to_string());
    expected.insert("bidrem9".to_string(), "000000000701".to_string());
    expected.insert("preoffercha9".to_string(), "000000000000".to_string());
    expected.insert("prebidcha9".to_string(), "000000000000".to_string());
    expected.insert("offerho10".to_string(), "00006090".to_string());
    expected.insert("bidho10".to_string(), "00005900".to_string());
    expected.insert("offerrem10".to_string(), "000000000640".to_string());
    expected.insert("bidrem10".to_string(), "000000000777".to_string());
    expected.insert("preoffercha10".to_string(), "000000000000".to_string());
    expected.insert("prebidcha10".to_string(), "000000000000".to_string());
    expected.insert("offer".to_string(), "000000010283".to_string());
    expected.insert("bid".to_string(), "000000034598".to_string());
    expected.insert("preoffercha".to_string(), "-00000011585".to_string());
    expected.insert("prebidcha".to_string(), "-00000035931".to_string());
    expected.insert("hotime".to_string(), "16000112".to_string());
    expected.insert("yeprice".to_string(), "00000000".to_string());
    expected.insert("yevolume".to_string(), "000000000000".to_string());
    expected.insert("yesign".to_string(), "3".to_string());
    expected.insert("yechange".to_string(), "00000000".to_string());
    expected.insert("yediff".to_string(), "000.00".to_string());
    expected.insert("tmoffer".to_string(), "000000000000".to_string());
    expected.insert("tmbid".to_string(), "000000000098".to_string());
    expected.insert("ho_status".to_string(), "2".to_string());
    expected.insert("shcode".to_string(), "078020".to_string());
    expected.insert("uplmtprice".to_string(), "00007680".to_string());
    expected.insert("dnlmtprice".to_string(), "00004140".to_string());
    expected.insert("open".to_string(), "00005910".to_string());
    expected.insert("high".to_string(), "00006000".to_string());
    expected.insert("low".to_string(), "00005870".to_string());
    expected
}

fn validate_t1101_data(data: &Data) {
    assert_eq!(data.code, "t1101");
    assert_eq!(data.data_type, DataType::Output);
    assert_eq!(data.blocks.len(), 1);
    let block = data.blocks.get("t1101OutBlock").unwrap();
    assert_eq!(block, &Block::Block(t1101_expected()));
}

#[test]
fn tests_test_decode_block() {
    let table = layout_table();
    let tr_layout = table.get("t1101").unwrap();
    assert!(tr_layout.attr);
    assert!(tr_layout.block);
    assert_eq!(tr_layout.header_type.unwrap(), HeaderType::A);

    let mut blocks = BlockMap::new();
    blocks.insert(
        "t1101OutBlock".to_string(),
        decode_block(tr_layout, find_out_block(tr_layout, "t1101OutBlock"), T1101_DATA).unwrap(),
    );
    let data = Data { code: "t1101".to_string(), data_type: DataType::Output, blocks };
    validate_t1101_data(&data);
}

#[test]
fn mod_test_decode_block() {
    let table = layout_table();
    let tr_layout = table.get("t1101").unwrap();
    assert!(tr_layout.attr);
    assert!(tr_layout.block);
    assert_eq!(tr_layout.header_type.unwrap(), HeaderType::A);

    let block = decode_block(
        tr_layout,
        tr_layout.out_blocks.iter().find(|b| b.name == "t1101OutBlock").unwrap(),
        T1101_DATA,
    )
    .unwrap();
    let mut blocks = BlockMap::new();
    blocks.insert("t1101OutBlock".to_string(), block);
    let data = Data { code: "t1101".to_string(), data_type: DataType::Output, blocks };
    validate_t1101_data(&data);
}

fn t1104_array_expected() -> Block {
    let mut rec = Record::new();
    rec.insert("indx".to_string(), "".to_string());
    rec.insert("gubn".to_string(), "1".to_string());
    rec.insert("vals".to_string(), "00007260".to_string());
    Block::Array(vec![rec])
}

#[test]
fn tests_test_decode_array_block() {
    // date="2021-01-12", code="078020", gubn="1", dat="1", dat2="1"
    const T1104_DATA: &[u8] = &[0x00, 0x31, 0x30, 0x30, 0x30, 0x30, 0x37, 0x32, 0x36, 0x30];

    let table = layout_table();
    let tr_layout = table.get("t1104").unwrap();
    assert!(!tr_layout.attr);
    assert!(tr_layout.block);
    assert_eq!(tr_layout.header_type.unwrap(), HeaderType::A);

    let arr_block = decode_block_array(
        tr_layout,
        find_out_block(tr_layout, "t1104OutBlock1"),
        T1104_DATA,
    )
    .unwrap();
    assert_eq!(arr_block, t1104_array_expected());
}

#[test]
fn mod_test_decode_array_block() {
    const T1104_DATA: &[u8] = &[0x00, 0x31, 0x30, 0x30, 0x30, 0x30, 0x37, 0x32, 0x36, 0x30];

    let table = layout_table();
    let tr_layout = table.get("t1104").unwrap();
    assert!(!tr_layout.attr);
    assert!(tr_layout.block);
    assert_eq!(tr_layout.header_type.unwrap(), HeaderType::A);

    let block = decode_block_array(
        tr_layout,
        tr_layout.out_blocks.iter().find(|b| b.name == "t1104OutBlock1").unwrap(),
        T1104_DATA,
    )
    .unwrap();
    assert_eq!(block, t1104_array_expected());
}

fn t1104_input() -> Data {
    let mut in_block = Record::new();
    in_block.insert("code".to_string(), "096530".to_string());
    in_block.insert("nrec".to_string(), "1".to_string());
    let mut arr_rec = Record::new();
    arr_rec.insert("indx".to_string(), "0".to_string());
    arr_rec.insert("gubn".to_string(), "1".to_string());
    arr_rec.insert("dat1".to_string(), "1".to_string());
    arr_rec.insert("dat2".to_string(), "1".to_string());
    let mut blocks = BlockMap::new();
    blocks.insert("t1104InBlock".to_string(), Block::Block(in_block));
    blocks.insert("t1104InBlock1".to_string(), Block::Array(vec![arr_rec]));
    Data { code: "t1104".to_string(), data_type: DataType::Input, blocks }
}

const T1104_ENCODED: &[u8] = &[
    0x30, 0x39, 0x36, 0x35, 0x33, 0x30, 0x31, 0x00, 0x30, 0x31, 0x31, 0x31, 0x00, 0x00, 0x00,
    0x00, 0x00, 0x00, 0x00,
];

#[test]
fn tests_test_encode() {
    let table = layout_table();
    let data = t1104_input();
    assert_eq!(encode(&data, table.get("t1104").unwrap()).unwrap(), T1104_ENCODED);
}

#[test]
fn mod_test_encode() {
    let table = layout_table();
    let data = t1104_input();
    assert_eq!(encode(&data, table.get("t1104").unwrap()).unwrap(), T1104_ENCODED);
}

#[test]
fn exceed_field_length_is_not_truncated() {
    // A five-character value in a four-byte slot must be rejected.
    let tr = layout::load(
        "BEGIN_FUNCTION_MAP\n.Func, small, t9001;\nBEGIN_DATA_MAP\nt9001InBlock, in, input;\nbegin\n    value, val, val, char, 4;\nend\nEND_DATA_MAP\n",
    )
    .unwrap();
    let mut rec = Record::new();
    rec.insert("val".to_string(), "12345".to_string());
    let mut blocks = BlockMap::new();
    blocks.insert("t9001InBlock".to_string(), Block::Block(rec));
    let data = Data { code: "t9001".to_string(), data_type: DataType::Input, blocks };
    match encode(&data, &tr) {
        Err(EncodeError::ExceedFieldLength { block, field }) => {
            assert_eq!(block, "t9001InBlock");
            assert_eq!(field, "val");
        }
        other => panic!("unexpected result: {:?}", other),
    }
}

#[test]
fn encode_pads_each_field_to_its_width() {
    // Two fields of widths six and one, no attribute byte: exactly seven
    // bytes come out, each value NUL-padded to its width.
    let tr = layout::load(
        "BEGIN_FUNCTION_MAP\n.Func, small, t9002;\nBEGIN_DATA_MAP\nt9002InBlock, in, input;\nbegin\n    ticker, code, code, char, 6;\n    count, nrec, nrec, char, 1;\nend\nEND_DATA_MAP\n",
    )
    .unwrap();
    let mut rec = Record::new();
    rec.insert("code".to_string(), "096530".to_string());
    rec.insert("nrec".to_string(), "1".to_string());
    let mut blocks = BlockMap::new();
    blocks.insert("t9002InBlock".to_string(), Block::Block(rec));
    let data = Data { code: "t9002".to_string(), data_type: DataType::Input, blocks };
    let enc = encode(&data, &tr).unwrap();
    assert_eq!(enc, b"0965301".to_vec());
}

const T1764_RES: &str = "BEGIN_FUNCTION_MAP\n.Func, members, t1764, attr, block, headtype=A;\nBEGIN_DATA_MAP\nt1764OutBlock, members, output, occurs;\nbegin\n    rank, rank, rank, long, 2;\n    member, tradno, tradno, char, 5;\n    membername, tradname, tradname, char, 20;\nend\nEND_DATA_MAP\n";

// date="2020-10-21", shcode="078020"
const T1764_DATA: &[u8] = &[
    0x30, 0x00, 0x20, 0x20, 0x20, 0x30, 0x30, 0x30, 0x00, 0xbf, 0xdc, 0xb1, 0xb9, 0xb0, 0xe8, 0xc8,
    0xb8, 0xbf, 0xf8, 0xbb, 0xe7, 0xc0, 0xfc, 0xc3, 0xbc, 0x00, 0x20, 0x20, 0x20, 0x20, 0x31, 0x00,
    0x20, 0x20, 0x20, 0x30, 0x34, 0x32, 0x20, 0x43, 0x53, 0xc1, 0xf5, 0xb1, 0xc7, 0x20, 0x20, 0x20,
    0x20, 0x20, 0x20, 0x20, 0x00, 0x00, 0x00, 0x00, 0x00, 0x00, 0x00, 0x20, 0x32, 0x00, 0x20, 0x20,
    0x20, 0x30, 0x31, 0x37, 0x20, 0x4b, 0x42, 0xc1, 0xf5, 0xb1, 0xc7, 0x20, 0x20, 0x20, 0x20, 0x20,
    0x20, 0x20, 0x00, 0x00, 0x00, 0x00, 0x00, 0x00, 0x00, 0x20, 0x33, 0x00, 0x20, 0x20, 0x20, 0x30,
    0x31, 0x32, 0x20, 0x4e, 0x48, 0xc5, 0xf5, 0xc0, 0xda, 0xc1, 0xf5, 0xb1, 0xc7, 0x20, 0x20, 0x20,
    0x00, 0x00, 0x00, 0x00, 0x00, 0x00, 0x00, 0x20, 0x34, 0x00, 0x20, 0x20, 0x20, 0x30, 0x32, 0x35,
    0x20, 0x53, 0x4b, 0xc1, 0xf5, 0xb1, 0xc7, 0x20, 0x20, 0x20, 0x20, 0x20, 0x20, 0x20, 0x00, 0x00,
    0x00, 0x00, 0x00, 0x00, 0x00, 0x20, 0x35, 0x00, 0x20, 0x20, 0x20, 0x30, 0x34, 0x33, 0x20, 0x55,
    0x42, 0x53, 0x20, 0x20, 0x20, 0x20, 0x20, 0x20, 0x20, 0x20, 0x20, 0x20, 0x00, 0x00, 0x00, 0x00,
    0x00, 0x00, 0x00, 0x20, 0x36, 0x00, 0x20, 0x20, 0x20, 0x30, 0x36, 0x33, 0x20, 0x65, 0x42, 0x45,
    0x53, 0x54, 0x20, 0xc1, 0xf5, 0xb1, 0xc7, 0x20, 0x20, 0x20, 0x00, 0x00, 0x00, 0x00, 0x00, 0x00,
    0x00, 0x20, 0x37, 0x00, 0x20, 0x20, 0x20, 0x30, 0x34, 0x35, 0x20, 0xb0, 0xf1, 0xb5, 0xe5, 0xb8,
    0xb8, 0x20, 0x20, 0x20, 0x20, 0x20, 0x20, 0x20, 0x00, 0x00, 0x00, 0x00, 0x00, 0x00, 0x00, 0x20,
    0x38, 0x00, 0x20, 0x20, 0x20, 0x30, 0x30, 0x34, 0x20, 0xb4, 0xeb, 0xbd, 0xc5, 0xc1, 0xf5, 0xb1,
    0xc7, 0x20, 0x20, 0x20, 0x20, 0x20, 0x00, 0x00, 0x00, 0x00, 0x00, 0x00, 0x00, 0x20, 0x39, 0x00,
    0x20, 0x20, 0x20, 0x30, 0x31, 0x30, 0x20, 0xb8, 0xde, 0xb8, 0xae, 0xc3, 0xf7, 0x20, 0x20, 0x20,
    0x20, 0x20, 0x20, 0x20, 0x00, 0x00, 0x00, 0x00, 0x00, 0x00, 0x00, 0x20, 0x31, 0x30, 0x00, 0x20,
    0x20, 0x30, 0x34, 0x34, 0x20, 0xb8, 0xde, 0xb8, 0xb1, 0xb8, 0xb0, 0xc4, 0xa1, 0x20, 0x20, 0x20,
    0x20, 0x20, 0x00, 0x00, 0x00, 0x00, 0x00, 0x00, 0x00, 0x20, 0x31, 0x31, 0x00, 0x20, 0x20, 0x30,
    0x30, 0x35, 0x20, 0xb9, 0xcc, 0xb7, 0xa1, 0xb4, 0xeb, 0xbf, 0xec, 0x20, 0x20, 0x20, 0x20, 0x20,
    0x00, 0x00, 0x00, 0x00, 0x00, 0x00, 0x00, 0x20, 0x31, 0x32, 0x00, 0x20, 0x20, 0x30, 0x33, 0x30,
    0x20, 0xbb, 0xef, 0xbc, 0xba, 0xc1, 0xf5, 0xb1, 0xc7, 0x20, 0x20, 0x20, 0x20, 0x20, 0x00, 0x00,
    0x00, 0x00, 0x00, 0x00, 0x00, 0x20, 0x31, 0x33, 0x00, 0x20, 0x20, 0x30, 0x30, 0x36, 0x20, 0xbd,
    0xc5, 0xbf, 0xb5, 0xc1, 0xf5, 0xb1, 0xc7, 0x20, 0x20, 0x20, 0x20, 0x20, 0x00, 0x00, 0x00, 0x00,
    0x00, 0x00, 0x00, 0x20, 0x31, 0x34, 0x00, 0x20, 0x20, 0x30, 0x30, 0x32, 0x20, 0xbd, 0xc5, 0xc7,
    0xd1, 0xc5, 0xf5, 0xc0, 0xda, 0x20, 0x20, 0x20, 0x20, 0x20, 0x00, 0x00, 0x00, 0x00, 0x00, 0x00,
    0x00, 0x20, 0x31, 0x35, 0x00, 0x20, 0x20, 0x30, 0x30, 0x38, 0x20, 0xc0, 0xaf, 0xc1, 0xf8, 0xc1,
    0xf5, 0xb1, 0xc7, 0x20, 0x20, 0x20, 0x20, 0x20, 0x00, 0x00, 0x00, 0x00, 0x00, 0x00, 0x00, 0x20,
    0x31, 0x36, 0x00, 0x20, 0x20, 0x30, 0x35, 0x30, 0x20, 0xc5, 0xb0, 0xbf, 0xf2, 0xc1, 0xf5, 0xb1,
    0xc7, 0x20, 0x20, 0x20, 0x20, 0x20, 0x00, 0x00, 0x00, 0x00, 0x00, 0x00, 0x00, 0x20, 0x31, 0x37,
    0x00, 0x20, 0x20, 0x30, 0x34, 0x36, 0x20, 0xc7, 0xcf, 0xc0, 0xcc, 0xc1, 0xf5, 0xb1, 0xc7, 0x20,
    0x20, 0x20, 0x20, 0x20, 0x00, 0x00, 0x00, 0x00, 0x00, 0x00, 0x00, 0x20, 0x31, 0x38, 0x00, 0x20,
    0x20, 0x30, 0x30, 0x33, 0x20, 0xc7, 0xd1, 0xb1, 0xb9, 0xc1, 0xf5, 0xb1, 0xc7, 0x20, 0x20, 0x20,
    0x20, 0x20, 0x00, 0x00, 0x00, 0x00, 0x00, 0x00, 0x00, 0x20,
];

fn t1764_expected() -> Block {
    let mut rec0 = Record::new();
    rec0.insert("rank".to_string(), "0".to_string());
    rec0.insert("tradno".to_string(), "000".to_string());
    rec0.insert("tradname".to_string(), "외국계회원사전체".to_string());
    let mut rec1 = Record::new();
    rec1.insert("rank".to_string(), "1".to_string());
    rec1.insert("tradno".to_string(), "042".to_string());
    rec1.insert("tradname".to_string(), "CS증권".to_string());
    let mut rec2 = Record::new();
    rec2.insert("rank".to_string(), "2".to_string());
    rec2.insert("tradno".to_string(), "017".to_string());
    rec2.insert("tradname".to_string(), "KB증권".to_string());
    let mut rec3 = Record::new();
    rec3.insert("rank".to_string(), "3".to_string());
    rec3.insert("tradno".to_string(), "012".to_string());
    rec3.insert("tradname".to_string(), "NH투자증권".to_string());
    let mut rec4 = Record::new();
    rec4.insert("rank".to_string(), "4".to_string());
    rec4.insert("tradno".to_string(), "025".to_string());
    rec4.insert("tradname".to_string(), "SK증권".to_string());
    let mut rec5 = Record::new();
    rec5.insert("rank".to_string(), "5".to_string());
    rec5.insert("tradno".to_string(), "043".to_string());
    rec5.insert("tradname".to_string(), "UBS".to_string());
    let mut rec6 = Record::new();
    rec6.insert("rank".to_string(), "6".to_string());
    rec6.insert("tradno".to_string(), "063".to_string());
    rec6.insert("tradname".to_string(), "eBEST 증권".to_string());
    let mut rec7 = Record::new();
    rec7.insert("rank".to_string(), "7".to_string());
    rec7.insert("tradno".to_string(), "045".to_string());
    rec7.insert("tradname".to_string(), "골드만".to_string());
    let mut rec8 = Record::new();
    rec8.insert("rank".to_string(), "8".to_string());
    rec8.insert("tradno".to_string(), "004".to_string());
    rec8.insert("tradname".to_string(), "대신증권".to_string());
    let mut rec9 = Record::new();
    rec9.insert("rank".to_string(), "9".to_string());
    rec9.insert("tradno".to_string(), "010".to_string());
    rec9.insert("tradname".to_string(), "메리츠".to_string());
    let mut rec10 = Record::new();
    rec10.insert("rank".to_string(), "10".to_string());
    rec10.insert("tradno".to_string(), "044".to_string());
    rec10.insert("tradname".to_string(), "메릴린치".to_string());
    let mut rec11 = Record::new();
    rec11.insert("rank".to_string(), "11".to_string());
    rec11.insert("tradno".to_string(), "005".to_string());
    rec11.insert("tradname".to_string(), "미래대우".to_string());
    let mut rec12 = Record::new();
    rec12.insert("rank".to_string(), "12".to_string());
    rec12.insert("tradno".to_string(), "030".to_string());
    rec12.insert("tradname".to_string(), "삼성증권".to_string());
    let mut rec13 = Record::new();
    rec13.insert("rank".to_string(), "13".to_string());
    rec13.insert("tradno".to_string(), "006".to_string());
    rec13.insert("tradname".to_string(), "신영증권".to_string());
    let mut rec14 = Record::new();
    rec14.insert("rank".to_string(), "14".to_string());
    rec14.insert("tradno".to_string(), "002".to_string());
    rec14.insert("tradname".to_string(), "신한투자".to_string());
    let mut rec15 = Record::new();
    rec15.insert("rank".to_string(), "15".to_string());
    rec15.insert("tradno".to_string(), "008".to_string());
    rec15.insert("tradname".to_string(), "유진증권".to_string());
    let mut rec16 = Record::new();
    rec16.insert("rank".to_string(), "16".to_string());
    rec16.insert("tradno".to_string(), "050".to_string());
    rec16.insert("tradname".to_string(), "키움증권".to_string());
    let mut rec17 = Record::new();
    rec17.insert("rank".to_string(), "17".to_string());
    rec17.insert("tradno".to_string(), "046".to_string());
    rec17.insert("tradname".to_string(), "하이증권".to_string());
    let mut rec18 = Record::new();
    rec18.insert("rank".to_string(), "18".to_string());
    rec18.insert("tradno".to_string(), "003".to_string());
    rec18.insert("tradname".to_string(), "한국증권".to_string());
    Block::Array(vec![rec0, rec1, rec2, rec3, rec4, rec5, rec6, rec7, rec8, rec9, rec10, rec11, rec12, rec13, rec14, rec15, rec16, rec17, rec18])
}

#[test]
fn mod_test_decode_array_block_t1764() {
    let tr_layout = layout::load(T1764_RES).unwrap();
    assert!(tr_layout.attr);
    assert!(tr_layout.block);
    assert_eq!(tr_layout.header_type.unwrap(), HeaderType::A);

    let block = decode_block_array(
        &tr_layout,
        tr_layout.out_blocks.iter().find(|b| b.name == "t1764OutBlock").unwrap(),
        T1764_DATA,
    )
    .unwrap();
    let mut blocks = BlockMap::new();
    blocks.insert("t1764OutBlock".to_string(), block);
    let data = Data { code: "t1764".to_string(), data_type: DataType::Output, blocks };
    validate_t1764_data(&data);
}

fn validate_t1764_data(data: &Data) {
    assert_eq!(data.code, "t1764");
    assert_eq!(data.data_type, DataType::Output);
    assert_eq!(data.blocks.len(), 1);
    assert_eq!(data.blocks.get("t1764OutBlock").unwrap(), &t1764_expected());
}

const T0424_RES: &str = "BEGIN_FUNCTION_MAP\n.Func, balances, t0424, attr, headtype=D;\nBEGIN_DATA_MAP\nt0424OutBlock, totals, output;\nbegin\n    sunamt, sunamt, sunamt, char, 18;\n    dtsunik, dtsunik, dtsunik, char, 18;\n    mamt, mamt, mamt, char, 18;\n    sunamt1, sunamt1, sunamt1, char, 18;\n    cts_expcode, cts_expcode, cts_expcode, char, 22;\n    tappamt, tappamt, tappamt, char, 18;\n    tdtsunik, tdtsunik, tdtsunik, char, 18;\nend\nt0424OutBlock1, holdings, output, occurs;\nbegin\n    expcode, expcode, expcode, char, 12;\n    jangb, jangb, jangb, char, 2;\n    janqty, janqty, janqty, char, 18;\n    mdposqt, mdposqt, mdposqt, char, 18;\n    pamt, pamt, pamt, char, 18;\n    mamt, mamt, mamt, char, 18;\n    sinamt, sinamt, sinamt, char, 18;\n    lastdt, lastdt, lastdt, char, 8;\n    msat, msat, msat, char, 18;\n    mpms, mpms, mpms, char, 18;\n    mdat, mdat, mdat, char, 18;\n    mpmd, mpmd, mpmd, char, 18;\n    jsat, jsat, jsat, char, 18;\n    jpms, jpms, jpms, char, 18;\n    jdat, jdat, jdat, char, 18;\n    jpmd, jpmd, jpmd, char, 18;\n    sysprocseq, sysprocseq, sysprocseq, char, 20;\n    loandt, loandt, loandt, char, 1;\n    hname, hname, hname, char, 21;\n    marketgb, marketgb, marketgb, char, 1;\n    jonggb, jonggb, jonggb, char, 5;\n    janrt, janrt, janrt, char, 4;\n    price, price, price, char, 14;\n    appamt, appamt, appamt, char, 18;\n    dtsunik, dtsunik, dtsunik, char, 18;\n    sunikrt, sunikrt, sunikrt, char, 10;\n    fee, fee, fee, char, 10;\n    tax, tax, tax, char, 10;\n    sininter, sininter, sininter, char, 10;\nend\nEND_DATA_MAP\n";

// date="2021-01-11"
const T0424_DATA: &[u8] = &[
    0x30, 0x30, 0x30, 0x30, 0x30, 0x30, 0x30, 0x30, 0x30, 0x35, 0x30, 0x30, 0x30, 0x30, 0x37, 0x39,
    0x30, 0x37, 0x20, 0x30, 0x30, 0x30, 0x30, 0x30, 0x30, 0x30, 0x30, 0x30, 0x30, 0x30, 0x30, 0x30,
    0x30, 0x30, 0x30, 0x30, 0x30, 0x20, 0x30, 0x30, 0x30, 0x30, 0x30, 0x30, 0x30, 0x30, 0x30, 0x30,
    0x30, 0x31, 0x39, 0x35, 0x37, 0x34, 0x30, 0x30, 0x20, 0x35, 0x30, 0x30, 0x30, 0x30, 0x30, 0x30,
    0x30, 0x30, 0x20, 0x20, 0x20, 0x20, 0x20, 0x20, 0x20, 0x20, 0x20, 0x20, 0x20, 0x20, 0x20, 0x20,
    0x20, 0x20, 0x20, 0x20, 0x20, 0x20, 0x20, 0x20, 0x20, 0x20, 0x20, 0x20, 0x20, 0x20, 0x20, 0x20,
    0x20, 0x20, 0x20, 0x30, 0x30, 0x30, 0x30, 0x30, 0x30, 0x30, 0x30, 0x30, 0x30, 0x30, 0x31, 0x39,
    0x36, 0x35, 0x36, 0x30, 0x30, 0xb0, 0x30, 0x30, 0x30, 0x30, 0x30, 0x30, 0x30, 0x30, 0x30, 0x30,
    0x30, 0x30, 0x30, 0x30, 0x38, 0x32, 0x30, 0x30, 0xb0, 0x30, 0x30, 0x30, 0x30, 0x32, 0x30, 0x30,
    0x35, 0x39, 0x33, 0x30, 0x20, 0x20, 0x20, 0x20, 0x20, 0x20, 0x20, 0x20, 0x20, 0x20, 0x20, 0x20,
    0x20, 0x20, 0x20, 0x20, 0x20, 0x20, 0x32, 0x30, 0x20, 0x20, 0x20, 0x20, 0x20, 0x20, 0x20, 0x20,
    0x20, 0x20, 0x20, 0x20, 0x20, 0x20, 0x20, 0x20, 0x20, 0x32, 0x30, 0x20, 0x20, 0x20, 0x20, 0x20,
    0x20, 0x20, 0x20, 0x20, 0x20, 0x20, 0x20, 0x20, 0x20, 0x20, 0x20, 0x20, 0x39, 0x30, 0x37, 0x30,
    0x30, 0x20, 0x20, 0x20, 0x20, 0x20, 0x20, 0x20, 0x20, 0x20, 0x20, 0x20, 0x20, 0x20, 0x20, 0x31,
    0x38, 0x31, 0x34, 0x30, 0x30, 0x30, 0x20, 0x20, 0x20, 0x20, 0x20, 0x20, 0x20, 0x20, 0x20, 0x20,
    0x20, 0x20, 0x30, 0x20, 0x20, 0x20, 0x20, 0x20, 0x20, 0x20, 0x20, 0x20, 0x20, 0x20, 0x20, 0x20,
    0x20, 0x20, 0x20, 0x20, 0x20, 0x20, 0x20, 0x20, 0x20, 0x20, 0x20, 0x20, 0x20, 0x20, 0x32, 0x30,
    0x20, 0x20, 0x20, 0x20, 0x20, 0x20, 0x20, 0x20, 0x20, 0x20, 0x20, 0x20, 0x20, 0x20, 0x20, 0x20,
    0x20, 0x39, 0x30, 0x37, 0x30, 0x30, 0x20, 0x20, 0x20, 0x20, 0x20, 0x20, 0x20, 0x20, 0x20, 0x20,
    0x20, 0x20, 0x20, 0x20, 0x30, 0x20, 0x20, 0x20, 0x20, 0x20, 0x20, 0x20, 0x20, 0x20, 0x20, 0x20,
    0x20, 0x20, 0x20, 0x20, 0x20, 0x20, 0x20, 0x30, 0x20, 0x20, 0x20, 0x20, 0x20, 0x20, 0x20, 0x20,
    0x20, 0x20, 0x20, 0x20, 0x20, 0x20, 0x20, 0x20, 0x20, 0x20, 0x30, 0x20, 0x20, 0x20, 0x20, 0x20,
    0x20, 0x20, 0x20, 0x20, 0x20, 0x20, 0x20, 0x20, 0x20, 0x20, 0x20, 0x20, 0x20, 0x30, 0x20, 0x20,
    0x20, 0x20, 0x20, 0x20, 0x20, 0x20, 0x20, 0x20, 0x20, 0x20, 0x20, 0x20, 0x20, 0x20, 0x20, 0x20,
    0x30, 0x20, 0x20, 0x20, 0x20, 0x20, 0x20, 0x20, 0x20, 0x20, 0x20, 0x20, 0x20, 0x20, 0x20, 0x20,
    0x20, 0x20, 0x20, 0x30, 0x20, 0x20, 0x20, 0x20, 0x20, 0x20, 0x20, 0x20, 0x20, 0x20, 0x20, 0x20,
    0x20, 0x20, 0x20, 0x20, 0x20, 0x20, 0x34, 0x38, 0x39, 0x36, 0x36, 0x20, 0x20, 0x20, 0x20, 0x20,
    0x20, 0x20, 0x20, 0x20, 0x20, 0x20, 0x20, 0x20, 0x20, 0x20, 0xbb, 0xef, 0xbc, 0xba, 0xc0, 0xfc,
    0xc0, 0xda, 0x20, 0x20, 0x20, 0x20, 0x20, 0x20, 0x20, 0x20, 0x20, 0x20, 0x20, 0x20, 0x20, 0x20,
    0x20, 0x33, 0x20, 0x39, 0x32, 0x36, 0x37, 0x20, 0x20, 0x20, 0x20, 0x20, 0x20, 0x20, 0x30, 0x30,
    0x30, 0x39, 0x31, 0x30, 0x30, 0x30, 0xb0, 0x30, 0x30, 0x30, 0x30, 0x30, 0x30, 0x30, 0x30, 0x30,
    0x30, 0x30, 0x31, 0x38, 0x32, 0x30, 0x30, 0x30, 0x30, 0xb0, 0x20, 0x20, 0x20, 0x20, 0x20, 0x20,
    0x20, 0x20, 0x20, 0x20, 0x20, 0x20, 0x20, 0x20, 0x36, 0x30, 0x30, 0x30, 0xb0, 0x30, 0x30, 0x30,
    0x30, 0x30, 0x30, 0x30, 0x30, 0x33, 0x33, 0xb0, 0x30, 0x30, 0x30, 0x30, 0x30, 0x30, 0x30, 0x35,
    0x34, 0x35, 0x20, 0x30, 0x30, 0x30, 0x30, 0x30, 0x30, 0x34, 0x35, 0x35, 0x30, 0x20, 0x30, 0x30,
    0x30, 0x30, 0x30, 0x30, 0x30, 0x30, 0x30, 0x30, 0x20, 0x30, 0x37, 0x38, 0x30, 0x32, 0x30, 0x20,
    0x20, 0x20, 0x20, 0x20, 0x20, 0x20, 0x20, 0x20, 0x20, 0x20, 0x20, 0x20, 0x20, 0x20, 0x20, 0x20,
    0x20, 0x32, 0x30, 0x20, 0x20, 0x20, 0x20, 0x20, 0x20, 0x20, 0x20, 0x20, 0x20, 0x20, 0x20, 0x20,
    0x20, 0x20, 0x20, 0x20, 0x32, 0x30, 0x20, 0x20, 0x20, 0x20, 0x20, 0x20, 0x20, 0x20, 0x20, 0x20,
    0x20, 0x20, 0x20, 0x20, 0x20, 0x20, 0x20, 0x37, 0x31, 0x37, 0x30, 0x20, 0x20, 0x20, 0x20, 0x20,
    0x20, 0x20, 0x20, 0x20, 0x20, 0x20, 0x20, 0x20, 0x20, 0x20, 0x31, 0x34, 0x33, 0x34, 0x30, 0x30,
    0x20, 0x20, 0x20, 0x20, 0x20, 0x20, 0x20, 0x20, 0x20, 0x20, 0x20, 0x20, 0x20, 0x30, 0x20, 0x20,
    0x20, 0x20, 0x20, 0x20, 0x20, 0x20, 0x20, 0x20, 0x20, 0x20, 0x20, 0x20, 0x20, 0x20, 0x20, 0x20,
    0x20, 0x20, 0x20, 0x20, 0x20, 0x20, 0x20, 0x20, 0x20, 0x32, 0x30, 0x20, 0x20, 0x20, 0x20, 0x20,
    0x20, 0x20, 0x20, 0x20, 0x20, 0x20, 0x20, 0x20, 0x20, 0x20, 0x20, 0x20, 0x37, 0x31, 0x37, 0x30,
    0x20, 0x20, 0x20, 0x20, 0x20, 0x20, 0x20, 0x20, 0x20, 0x20, 0x20, 0x20, 0x20, 0x20, 0x20, 0x30,
    0x20, 0x20, 0x20, 0x20, 0x20, 0x20, 0x20, 0x20, 0x20, 0x20, 0x20, 0x20, 0x20, 0x20, 0x20, 0x20,
    0x20, 0x20, 0x30, 0x20, 0x20, 0x20, 0x20, 0x20, 0x20, 0x20, 0x20, 0x20, 0x20, 0x20, 0x20, 0x20,
    0x20, 0x20, 0x20, 0x20, 0x20, 0x30, 0x20, 0x20, 0x20, 0x20, 0x20, 0x20, 0x20, 0x20, 0x20, 0x20,
    0x20, 0x20, 0x20, 0x20, 0x20, 0x20, 0x20, 0x20, 0x30, 0x20, 0x20, 0x20, 0x20, 0x20, 0x20, 0x20,
    0x20, 0x20, 0x20, 0x20, 0x20, 0x20, 0x20, 0x20, 0x20, 0x20, 0x20, 0x30, 0x20, 0x20, 0x20, 0x20,
    0x20, 0x20, 0x20, 0x20, 0x20, 0x20, 0x20, 0x20, 0x20, 0x20, 0x20, 0x20, 0x20, 0x20, 0x30, 0x20,
    0x20, 0x20, 0x20, 0x20, 0x20, 0x20, 0x20, 0x20, 0x20, 0x20, 0x20, 0x20, 0x20, 0x20, 0x20, 0x20,
    0x20, 0x34, 0x38, 0x39, 0x33, 0x34, 0x20, 0x20, 0x20, 0x20, 0x20, 0x20, 0x20, 0x20, 0x20, 0x20,
    0x20, 0x20, 0x20, 0x20, 0x20, 0xc0, 0xcc, 0xba, 0xa3, 0xbd, 0xba, 0xc6, 0xae, 0xc5, 0xf5, 0xc0,
    0xda, 0xc1, 0xf5, 0xb1, 0xc7, 0x20, 0x20, 0x20, 0x20, 0x20, 0x20, 0x20, 0x32, 0x20, 0x37, 0x33,
    0x33, 0x20, 0x20, 0x20, 0x20, 0x20, 0x20, 0x20, 0x20, 0x30, 0x30, 0x30, 0x30, 0x37, 0x32, 0x38,
    0x30, 0xb0, 0x30, 0x30, 0x30, 0x30, 0x30, 0x30, 0x30, 0x30, 0x30, 0x30, 0x30, 0x30, 0x31, 0x34,
    0x35, 0x36, 0x30, 0x30, 0xb0, 0x20, 0x20, 0x20, 0x20, 0x20, 0x20, 0x20, 0x20, 0x20, 0x20, 0x20,
    0x20, 0x20, 0x20, 0x32, 0x32, 0x30, 0x30, 0xb0, 0x30, 0x30, 0x30, 0x30, 0x30, 0x30, 0x30, 0x31,
    0x35, 0x33, 0xb0, 0x30, 0x30, 0x30, 0x30, 0x30, 0x30, 0x30, 0x30, 0x34, 0x32, 0x20, 0x30, 0x30,
    0x30, 0x30, 0x30, 0x30, 0x30, 0x33, 0x36, 0x34, 0x20, 0x30, 0x30, 0x30, 0x30, 0x30, 0x30, 0x30,
    0x30, 0x30, 0x30, 0x20,
];

#[test]
fn mod_test_decode_non_block() {
    let tr_layout = layout::load(T0424_RES).unwrap();
    assert!(tr_layout.attr);
    assert!(!tr_layout.block);
    assert_eq!(tr_layout.header_type.unwrap(), HeaderType::D);

    let data = decode_non_block(&tr_layout, DataType::Output, T0424_DATA).unwrap();
    assert_eq!(data.code, "t0424");
    assert_eq!(data.data_type, DataType::Output);
    validate_t0424_data(&data);
}

fn validate_t0424_data(data: &Data) {
    assert_eq!(data.code, "t0424");
    assert_eq!(data.data_type, DataType::Output);

    let mut totals = Record::new();
    totals.insert("sunamt".to_string(), "000000000500007907".to_string());
    totals.insert("dtsunik".to_string(), "000000000000000000".to_string());
    totals.insert("mamt".to_string(), "000000000001957400".to_string());
    totals.insert("sunamt1".to_string(), "500000000".to_string());
    totals.insert("cts_expcode".to_string(), "".to_string());
    totals.insert("tappamt".to_string(), "000000000001965600".to_string());
    totals.insert("tdtsunik".to_string(), "000000000000008200".to_string());
    assert_eq!(data.blocks.get("t0424OutBlock").unwrap(), &Block::Block(totals));

    let mut row0 = Record::new();
    row0.insert("expcode".to_string(), "005930".to_string());
    row0.insert("jangb".to_string(), "".to_string());
    row0.insert("janqty".to_string(), "20".to_string());
    row0.insert("mdposqt".to_string(), "20".to_string());
    row0.insert("pamt".to_string(), "90700".to_string());
    row0.insert("mamt".to_string(), "1814000".to_string());
    row0.insert("sinamt".to_string(), "0".to_string());
    row0.insert("lastdt".to_string(), "".to_string());
    row0.insert("msat".to_string(), "20".to_string());
    row0.insert("mpms".to_string(), "90700".to_string());
    row0.insert("mdat".to_string(), "0".to_string());
    row0.insert("mpmd".to_string(), "0".to_string());
    row0.insert("jsat".to_string(), "0".to_string());
    row0.insert("jpms".to_string(), "0".to_string());
    row0.insert("jdat".to_string(), "0".to_string());
    row0.insert("jpmd".to_string(), "0".to_string());
    row0.insert("sysprocseq".to_string(), "48966".to_string());
    row0.insert("loandt".to_string(), "".to_string());
    row0.insert("hname".to_string(), "삼성전자".to_string());
    row0.insert("marketgb".to_string(), "".to_string());
    row0.insert("jonggb".to_string(), "3".to_string());
    row0.insert("janrt".to_string(), "9267".to_string());
    row0.insert("price".to_string(), "00091000".to_string());
    row0.insert("appamt".to_string(), "000000000001820000".to_string());
    row0.insert("dtsunik".to_string(), "6000".to_string());
    row0.insert("sunikrt".to_string(), "0000000033".to_string());
    row0.insert("fee".to_string(), "0000000545".to_string());
    row0.insert("tax".to_string(), "0000004550".to_string());
    row0.insert("sininter".to_string(), "0000000000".to_string());
    let mut row1 = Record::new();
    row1.insert("expcode".to_string(), "078020".to_string());
    row1.insert("jangb".to_string(), "".to_string());
    row1.insert("janqty".to_string(), "20".to_string());
    row1.insert("mdposqt".to_string(), "20".to_string());
    row1.insert("pamt".to_string(), "7170".to_string());
    row1.insert("mamt".to_string(), "143400".to_string());
    row1.insert("sinamt".to_string(), "0".to_string());
    row1.insert("lastdt".to_string(), "".to_string());
    row1.insert("msat".to_string(), "20".to_string());
    row1.insert("mpms".to_string(), "7170".to_string());
    row1.insert("mdat".to_string(), "0".to_string());
    row1.insert("mpmd".to_string(), "0".to_string());
    row1.insert("jsat".to_string(), "0".to_string());
    row1.insert("jpms".to_string(), "0".to_string());
    row1.insert("jdat".to_string(), "0".to_string());
    row1.insert("jpmd".to_string(), "0".to_string());
    row1.insert("sysprocseq".to_string(), "48934".to_string());
    row1.insert("loandt".to_string(), "".to_string());
    row1.insert("hname".to_string(), "이베스트투자증권".to_string());
    row1.insert("marketgb".to_string(), "".to_string());
    row1.insert("jonggb".to_string(), "2".to_string());
    row1.insert("janrt".to_string(), "733".to_string());
    row1.insert("price".to_string(), "00007280".to_string());
    row1.insert("appamt".to_string(), "000000000000145600".to_string());
    row1.insert("dtsunik".to_string(), "2200".to_string());
    row1.insert("sunikrt".to_string(), "0000000153".to_string());
    row1.insert("fee".to_string(), "0000000042".to_string());
    row1.insert("tax".to_string(), "0000000364".to_string());
    row1.insert("sininter".to_string(), "0000000000".to_string());
    assert_eq!(
        data.blocks.get("t0424OutBlock1").unwrap(),
        &Block::Array(vec![row0, row1])
    );
}
