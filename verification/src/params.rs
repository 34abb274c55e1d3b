//! The parameter texts of the protocol operations.
//!
//! Each builder serialises the fixed parameter shape of one protocol
//! method, with the caller's values escaped into it; the spec
//! functions state the produced text byte for byte.

use vstd::prelude::*;
use crate::bytes::{dec_seq, int_dec_seq, push_bytes};
use crate::json::quoted;

verus! {

/// `{"processId":`
pub open spec fn l_pid() -> Seq<u8> {
    seq![123u8, 34, 112, 114, 111, 99, 101, 115, 115, 73, 100, 34, 58]
}

pub fn l_pid_vec() -> (v: Vec<u8>)
    ensures
        v@ == l_pid(),
{
    let mut v: Vec<u8> = Vec::new();
    v.push(123);
    v.push(34);
    v.push(112);
    v.push(114);
    v.push(111);
    v.push(99);
    v.push(101);
    v.push(115);
    v.push(115);
    v.push(73);
    v.push(100);
    v.push(34);
    v.push(58);
    proof {
        assert(v@ =~= l_pid());
    }
    v
}

/// `,"rootUri":`
pub open spec fn l_root_uri() -> Seq<u8> {
    seq![44u8, 34, 114, 111, 111, 116, 85, 114, 105, 34, 58]
}

pub fn l_root_uri_vec() -> (v: Vec<u8>)
    ensures
        v@ == l_root_uri(),
{
    let mut v: Vec<u8> = Vec::new();
    v.push(44);
    v.push(34);
    v.push(114);
    v.push(111);
    v.push(111);
    v.push(116);
    v.push(85);
    v.push(114);
    v.push(105);
    v.push(34);
    v.push(58);
    proof {
        assert(v@ =~= l_root_uri());
    }
    v
}

/// `,"capabilities":{"textDocument":{"completion":{"completionItem":{"snippetSupport":true,"documentationFormat":["markdown","plaintext"]}},"hover":{"contentFormat":["markdown","plaintext"]},"definition":{"linkSupport":true}}}}`
pub open spec fn l_caps() -> Seq<u8> {
    l_caps_part0() + l_caps_part1() + l_caps_part2() + l_caps_part3() + l_caps_part4() + l_caps_part5() + l_caps_part6() + l_caps_part7() + l_caps_part8() + l_caps_part9()
}

pub open spec fn l_caps_part0() -> Seq<u8> {
    seq![44u8, 34, 99, 97, 112, 97, 98, 105, 108, 105, 116, 105, 101, 115, 34, 58, 123, 34, 116, 101, 120, 116, 68, 111]
}

fn l_caps_part0_vec() -> (v: Vec<u8>)
    ensures
        v@ == l_caps_part0(),
{
    let mut v: Vec<u8> = Vec::new();
    v.push(44);
    v.push(34);
    v.push(99);
    v.push(97);
    v.push(112);
    v.push(97);
    v.push(98);
    v.push(105);
    v.push(108);
    v.push(105);
    v.push(116);
    v.push(105);
    v.push(101);
    v.push(115);
    v.push(34);
    v.push(58);
    v.push(123);
    v.push(34);
    v.push(116);
    v.push(101);
    v.push(120);
    v.push(116);
    v.push(68);
    v.push(111);
    proof {
        assert(v@ =~= l_caps_part0());
    }
    v
}

pub open spec fn l_caps_part1() -> Seq<u8> {
    seq![99u8, 117, 109, 101, 110, 116, 34, 58, 123, 34, 99, 111, 109, 112, 108, 101, 116, 105, 111, 110, 34, 58, 123, 34]
}

fn l_caps_part1_vec() -> (v: Vec<u8>)
    ensures
        v@ == l_caps_part1(),
{
    let mut v: Vec<u8> = Vec::new();
    v.push(99);
    v.push(117);
    v.push(109);
    v.push(101);
    v.push(110);
    v.push(116);
    v.push(34);
    v.push(58);
    v.push(123);
    v.push(34);
    v.push(99);
    v.push(111);
    v.push(109);
    v.push(112);
    v.push(108);
    v.push(101);
    v.push(116);
    v.push(105);
    v.push(111);
    v.push(110);
    v.push(34);
    v.push(58);
    v.push(123);
    v.push(34);
    proof {
        assert(v@ =~= l_caps_part1());
    }
    v
}

pub open spec fn l_caps_part2() -> Seq<u8> {
    seq![99u8, 111, 109, 112, 108, 101, 116, 105, 111, 110, 73, 116, 101, 109, 34, 58, 123, 34, 115, 110, 105, 112, 112, 101]
}

fn l_caps_part2_vec() -> (v: Vec<u8>)
    ensures
        v@ == l_caps_part2(),
{
    let mut v: Vec<u8> = Vec::new();
    v.push(99);
    v.push(111);
    v.push(109);
    v.push(112);
    v.push(108);
    v.push(101);
    v.push(116);
    v.push(105);
    v.push(111);
    v.push(110);
    v.push(73);
    v.push(116);
    v.push(101);
    v.push(109);
    v.push(34);
    v.push(58);
    v.push(123);
    v.push(34);
    v.push(115);
    v.push(110);
    v.push(105);
    v.push(112);
    v.push(112);
    v.push(101);
    proof {
        assert(v@ =~= l_caps_part2());
    }
    v
}

pub open spec fn l_caps_part3() -> Seq<u8> {
    seq![116u8, 83, 117, 112, 112, 111, 114, 116, 34, 58, 116, 114, 117, 101, 44, 34, 100, 111, 99, 117, 109, 101, 110, 116]
}

fn l_caps_part3_vec() -> (v: Vec<u8>)
    ensures
        v@ == l_caps_part3(),
{
    let mut v: Vec<u8> = Vec::new();
    v.push(116);
    v.push(83);
    v.push(117);
    v.push(112);
    v.push(112);
    v.push(111);
    v.push(114);
    v.push(116);
    v.push(34);
    v.push(58);
    v.push(116);
    v.push(114);
    v.push(117);
    v.push(101);
    v.push(44);
    v.push(34);
    v.push(100);
    v.push(111);
    v.push(99);
    v.push(117);
    v.push(109);
    v.push(101);
    v.push(110);
    v.push(116);
    proof {
        assert(v@ =~= l_caps_part3());
    }
    v
}

pub open spec fn l_caps_part4() -> Seq<u8> {
    seq![97u8, 116, 105, 111, 110, 70, 111, 114, 109, 97, 116, 34, 58, 91, 34, 109, 97, 114, 107, 100, 111, 119, 110, 34]
}

fn l_caps_part4_vec() -> (v: Vec<u8>)
    ensures
        v@ == l_caps_part4(),
{
    let mut v: Vec<u8> = Vec::new();
    v.push(97);
    v.push(116);
    v.push(105);
    v.push(111);
    v.push(110);
    v.push(70);
    v.push(111);
    v.push(114);
    v.push(109);
    v.push(97);
    v.push(116);
    v.push(34);
    v.push(58);
    v.push(91);
    v.push(34);
    v.push(109);
    v.push(97);
    v.push(114);
    v.push(107);
    v.push(100);
    v.push(111);
    v.push(119);
    v.push(110);
    v.push(34);
    proof {
        assert(v@ =~= l_caps_part4());
    }
    v
}

pub open spec fn l_caps_part5() -> Seq<u8> {
    seq![44u8, 34, 112, 108, 97, 105, 110, 116, 101, 120, 116, 34, 93, 125, 125, 44, 34, 104, 111, 118, 101, 114, 34, 58]
}

fn l_caps_part5_vec() -> (v: Vec<u8>)
    ensures
        v@ == l_caps_part5(),
{
    let mut v: Vec<u8> = Vec::new();
    v.push(44);
    v.push(34);
    v.push(112);
    v.push(108);
    v.push(97);
    v.push(105);
    v.push(110);
    v.push(116);
    v.push(101);
    v.push(120);
    v.push(116);
    v.push(34);
    v.push(93);
    v.push(125);
    v.push(125);
    v.push(44);
    v.push(34);
    v.push(104);
    v.push(111);
    v.push(118);
    v.push(101);
    v.push(114);
    v.push(34);
    v.push(58);
    proof {
        assert(v@ =~= l_caps_part5());
    }
    v
}

pub open spec fn l_caps_part6() -> Seq<u8> {
    seq![123u8, 34, 99, 111, 110, 116, 101, 110, 116, 70, 111, 114, 109, 97, 116, 34, 58, 91, 34, 109, 97, 114, 107, 100]
}

fn l_caps_part6_vec() -> (v: Vec<u8>)
    ensures
        v@ == l_caps_part6(),
{
    let mut v: Vec<u8> = Vec::new();
    v.push(123);
    v.push(34);
    v.push(99);
    v.push(111);
    v.push(110);
    v.push(116);
    v.push(101);
    v.push(110);
    v.push(116);
    v.push(70);
    v.push(111);
    v.push(114);
    v.push(109);
    v.push(97);
    v.push(116);
    v.push(34);
    v.push(58);
    v.push(91);
    v.push(34);
    v.push(109);
    v.push(97);
    v.push(114);
    v.push(107);
    v.push(100);
    proof {
        assert(v@ =~= l_caps_part6());
    }
    v
}

pub open spec fn l_caps_part7() -> Seq<u8> {
    seq![111u8, 119, 110, 34, 44, 34, 112, 108, 97, 105, 110, 116, 101, 120, 116, 34, 93, 125, 44, 34, 100, 101, 102, 105]
}

fn l_caps_part7_vec() -> (v: Vec<u8>)
    ensures
        v@ == l_caps_part7(),
{
    let mut v: Vec<u8> = Vec::new();
    v.push(111);
    v.push(119);
    v.push(110);
    v.push(34);
    v.push(44);
    v.push(34);
    v.push(112);
    v.push(108);
    v.push(97);
    v.push(105);
    v.push(110);
    v.push(116);
    v.push(101);
    v.push(120);
    v.push(116);
    v.push(34);
    v.push(93);
    v.push(125);
    v.push(44);
    v.push(34);
    v.push(100);
    v.push(101);
    v.push(102);
    v.push(105);
    proof {
        assert(v@ =~= l_caps_part7());
    }
    v
}

pub open spec fn l_caps_part8() -> Seq<u8> {
    seq![110u8, 105, 116, 105, 111, 110, 34, 58, 123, 34, 108, 105, 110, 107, 83, 117, 112, 112, 111, 114, 116, 34, 58, 116]
}

fn l_caps_part8_vec() -> (v: Vec<u8>)
    ensures
        v@ == l_caps_part8(),
{
    let mut v: Vec<u8> = Vec::new();
    v.push(110);
    v.push(105);
    v.push(116);
    v.push(105);
    v.push(111);
    v.push(110);
    v.push(34);
    v.push(58);
    v.push(123);
    v.push(34);
    v.push(108);
    v.push(105);
    v.push(110);
    v.push(107);
    v.push(83);
    v.push(117);
    v.push(112);
    v.push(112);
    v.push(111);
    v.push(114);
    v.push(116);
    v.push(34);
    v.push(58);
    v.push(116);
    proof {
        assert(v@ =~= l_caps_part8());
    }
    v
}

pub open spec fn l_caps_part9() -> Seq<u8> {
    seq![114u8, 117, 101, 125, 125, 125, 125]
}

fn l_caps_part9_vec() -> (v: Vec<u8>)
    ensures
        v@ == l_caps_part9(),
{
    let mut v: Vec<u8> = Vec::new();
    v.push(114);
    v.push(117);
    v.push(101);
    v.push(125);
    v.push(125);
    v.push(125);
    v.push(125);
    proof {
        assert(v@ =~= l_caps_part9());
    }
    v
}

pub fn l_caps_vec() -> (v: Vec<u8>)
    ensures
        v@ == l_caps(),
{
    let mut v = l_caps_part0_vec();
    push_bytes(&mut v, l_caps_part1_vec().as_slice());
    push_bytes(&mut v, l_caps_part2_vec().as_slice());
    push_bytes(&mut v, l_caps_part3_vec().as_slice());
    push_bytes(&mut v, l_caps_part4_vec().as_slice());
    push_bytes(&mut v, l_caps_part5_vec().as_slice());
    push_bytes(&mut v, l_caps_part6_vec().as_slice());
    push_bytes(&mut v, l_caps_part7_vec().as_slice());
    push_bytes(&mut v, l_caps_part8_vec().as_slice());
    push_bytes(&mut v, l_caps_part9_vec().as_slice());
    v
}

/// `{"settings":{"texlab":{"completion":{"matcher":"fuzzy-ignore-case"},"build":{"onSave":false}}}}`
pub open spec fn l_settings() -> Seq<u8> {
    l_settings_part0() + l_settings_part1() + l_settings_part2() + l_settings_part3()
}

pub open spec fn l_settings_part0() -> Seq<u8> {
    seq![123u8, 34, 115, 101, 116, 116, 105, 110, 103, 115, 34, 58, 123, 34, 116, 101, 120, 108, 97, 98, 34, 58, 123, 34]
}

fn l_settings_part0_vec() -> (v: Vec<u8>)
    ensures
        v@ == l_settings_part0(),
{
    let mut v: Vec<u8> = Vec::new();
    v.push(123);
    v.push(34);
    v.push(115);
    v.push(101);
    v.push(116);
    v.push(116);
    v.push(105);
    v.push(110);
    v.push(103);
    v.push(115);
    v.push(34);
    v.push(58);
    v.push(123);
    v.push(34);
    v.push(116);
    v.push(101);
    v.push(120);
    v.push(108);
    v.push(97);
    v.push(98);
    v.push(34);
    v.push(58);
    v.push(123);
    v.push(34);
    proof {
        assert(v@ =~= l_settings_part0());
    }
    v
}

pub open spec fn l_settings_part1() -> Seq<u8> {
    seq![99u8, 111, 109, 112, 108, 101, 116, 105, 111, 110, 34, 58, 123, 34, 109, 97, 116, 99, 104, 101, 114, 34, 58, 34]
}

fn l_settings_part1_vec() -> (v: Vec<u8>)
    ensures
        v@ == l_settings_part1(),
{
    let mut v: Vec<u8> = Vec::new();
    v.push(99);
    v.push(111);
    v.push(109);
    v.push(112);
    v.push(108);
    v.push(101);
    v.push(116);
    v.push(105);
    v.push(111);
    v.push(110);
    v.push(34);
    v.push(58);
    v.push(123);
    v.push(34);
    v.push(109);
    v.push(97);
    v.push(116);
    v.push(99);
    v.push(104);
    v.push(101);
    v.push(114);
    v.push(34);
    v.push(58);
    v.push(34);
    proof {
        assert(v@ =~= l_settings_part1());
    }
    v
}

pub open spec fn l_settings_part2() -> Seq<u8> {
    seq![102u8, 117, 122, 122, 121, 45, 105, 103, 110, 111, 114, 101, 45, 99, 97, 115, 101, 34, 125, 44, 34, 98, 117, 105]
}

fn l_settings_part2_vec() -> (v: Vec<u8>)
    ensures
        v@ == l_settings_part2(),
{
    let mut v: Vec<u8> = Vec::new();
    v.push(102);
    v.push(117);
    v.push(122);
    v.push(122);
    v.push(121);
    v.push(45);
    v.push(105);
    v.push(103);
    v.push(110);
    v.push(111);
    v.push(114);
    v.push(101);
    v.push(45);
    v.push(99);
    v.push(97);
    v.push(115);
    v.push(101);
    v.push(34);
    v.push(125);
    v.push(44);
    v.push(34);
    v.push(98);
    v.push(117);
    v.push(105);
    proof {
        assert(v@ =~= l_settings_part2());
    }
    v
}

pub open spec fn l_settings_part3() -> Seq<u8> {
    seq![108u8, 100, 34, 58, 123, 34, 111, 110, 83, 97, 118, 101, 34, 58, 102, 97, 108, 115, 101, 125, 125, 125, 125]
}

fn l_settings_part3_vec() -> (v: Vec<u8>)
    ensures
        v@ == l_settings_part3(),
{
    let mut v: Vec<u8> = Vec::new();
    v.push(108);
    v.push(100);
    v.push(34);
    v.push(58);
    v.push(123);
    v.push(34);
    v.push(111);
    v.push(110);
    v.push(83);
    v.push(97);
    v.push(118);
    v.push(101);
    v.push(34);
    v.push(58);
    v.push(102);
    v.push(97);
    v.push(108);
    v.push(115);
    v.push(101);
    v.push(125);
    v.push(125);
    v.push(125);
    v.push(125);
    proof {
        assert(v@ =~= l_settings_part3());
    }
    v
}

pub fn l_settings_vec() -> (v: Vec<u8>)
    ensures
        v@ == l_settings(),
{
    let mut v = l_settings_part0_vec();
    push_bytes(&mut v, l_settings_part1_vec().as_slice());
    push_bytes(&mut v, l_settings_part2_vec().as_slice());
    push_bytes(&mut v, l_settings_part3_vec().as_slice());
    v
}

/// `{"textDocument":{"uri":`
pub open spec fn l_td_uri() -> Seq<u8> {
    seq![123u8, 34, 116, 101, 120, 116, 68, 111, 99, 117, 109, 101, 110, 116, 34, 58, 123, 34, 117, 114, 105, 34, 58]
}

pub fn l_td_uri_vec() -> (v: Vec<u8>)
    ensures
        v@ == l_td_uri(),
{
    let mut v: Vec<u8> = Vec::new();
    v.push(123);
    v.push(34);
    v.push(116);
    v.push(101);
    v.push(120);
    v.push(116);
    v.push(68);
    v.push(111);
    v.push(99);
    v.push(117);
    v.push(109);
    v.push(101);
    v.push(110);
    v.push(116);
    v.push(34);
    v.push(58);
    v.push(123);
    v.push(34);
    v.push(117);
    v.push(114);
    v.push(105);
    v.push(34);
    v.push(58);
    proof {
        assert(v@ =~= l_td_uri());
    }
    v
}

/// `},"position":{"line":`
pub open spec fn l_pos() -> Seq<u8> {
    seq![125u8, 44, 34, 112, 111, 115, 105, 116, 105, 111, 110, 34, 58, 123, 34, 108, 105, 110, 101, 34, 58]
}

pub fn l_pos_vec() -> (v: Vec<u8>)
    ensures
        v@ == l_pos(),
{
    let mut v: Vec<u8> = Vec::new();
    v.push(125);
    v.push(44);
    v.push(34);
    v.push(112);
    v.push(111);
    v.push(115);
    v.push(105);
    v.push(116);
    v.push(105);
    v.push(111);
    v.push(110);
    v.push(34);
    v.push(58);
    v.push(123);
    v.push(34);
    v.push(108);
    v.push(105);
    v.push(110);
    v.push(101);
    v.push(34);
    v.push(58);
    proof {
        assert(v@ =~= l_pos());
    }
    v
}

/// `,"character":`
pub open spec fn l_char() -> Seq<u8> {
    seq![44u8, 34, 99, 104, 97, 114, 97, 99, 116, 101, 114, 34, 58]
}

pub fn l_char_vec() -> (v: Vec<u8>)
    ensures
        v@ == l_char(),
{
    let mut v: Vec<u8> = Vec::new();
    v.push(44);
    v.push(34);
    v.push(99);
    v.push(104);
    v.push(97);
    v.push(114);
    v.push(97);
    v.push(99);
    v.push(116);
    v.push(101);
    v.push(114);
    v.push(34);
    v.push(58);
    proof {
        assert(v@ =~= l_char());
    }
    v
}

/// `}}`
pub open spec fn l_two_close() -> Seq<u8> {
    seq![125u8, 125]
}

pub fn l_two_close_vec() -> (v: Vec<u8>)
    ensures
        v@ == l_two_close(),
{
    let mut v: Vec<u8> = Vec::new();
    v.push(125);
    v.push(125);
    proof {
        assert(v@ =~= l_two_close());
    }
    v
}

/// `,"languageId":`
pub open spec fn l_lang() -> Seq<u8> {
    seq![44u8, 34, 108, 97, 110, 103, 117, 97, 103, 101, 73, 100, 34, 58]
}

pub fn l_lang_vec() -> (v: Vec<u8>)
    ensures
        v@ == l_lang(),
{
    let mut v: Vec<u8> = Vec::new();
    v.push(44);
    v.push(34);
    v.push(108);
    v.push(97);
    v.push(110);
    v.push(103);
    v.push(117);
    v.push(97);
    v.push(103);
    v.push(101);
    v.push(73);
    v.push(100);
    v.push(34);
    v.push(58);
    proof {
        assert(v@ =~= l_lang());
    }
    v
}

/// `,"version":`
pub open spec fn l_version() -> Seq<u8> {
    seq![44u8, 34, 118, 101, 114, 115, 105, 111, 110, 34, 58]
}

pub fn l_version_vec() -> (v: Vec<u8>)
    ensures
        v@ == l_version(),
{
    let mut v: Vec<u8> = Vec::new();
    v.push(44);
    v.push(34);
    v.push(118);
    v.push(101);
    v.push(114);
    v.push(115);
    v.push(105);
    v.push(111);
    v.push(110);
    v.push(34);
    v.push(58);
    proof {
        assert(v@ =~= l_version());
    }
    v
}

/// `,"text":`
pub open spec fn l_text() -> Seq<u8> {
    seq![44u8, 34, 116, 101, 120, 116, 34, 58]
}

pub fn l_text_vec() -> (v: Vec<u8>)
    ensures
        v@ == l_text(),
{
    let mut v: Vec<u8> = Vec::new();
    v.push(44);
    v.push(34);
    v.push(116);
    v.push(101);
    v.push(120);
    v.push(116);
    v.push(34);
    v.push(58);
    proof {
        assert(v@ =~= l_text());
    }
    v
}

/// `},"contentChanges":[{"text":`
pub open spec fn l_changes() -> Seq<u8> {
    seq![125u8, 44, 34, 99, 111, 110, 116, 101, 110, 116, 67, 104, 97, 110, 103, 101, 115, 34, 58, 91, 123, 34, 116, 101, 120, 116, 34, 58]
}

pub fn l_changes_vec() -> (v: Vec<u8>)
    ensures
        v@ == l_changes(),
{
    let mut v: Vec<u8> = Vec::new();
    v.push(125);
    v.push(44);
    v.push(34);
    v.push(99);
    v.push(111);
    v.push(110);
    v.push(116);
    v.push(101);
    v.push(110);
    v.push(116);
    v.push(67);
    v.push(104);
    v.push(97);
    v.push(110);
    v.push(103);
    v.push(101);
    v.push(115);
    v.push(34);
    v.push(58);
    v.push(91);
    v.push(123);
    v.push(34);
    v.push(116);
    v.push(101);
    v.push(120);
    v.push(116);
    v.push(34);
    v.push(58);
    proof {
        assert(v@ =~= l_changes());
    }
    v
}

/// `}]}`
pub open spec fn l_changes_close() -> Seq<u8> {
    seq![125u8, 93, 125]
}

pub fn l_changes_close_vec() -> (v: Vec<u8>)
    ensures
        v@ == l_changes_close(),
{
    let mut v: Vec<u8> = Vec::new();
    v.push(125);
    v.push(93);
    v.push(125);
    proof {
        assert(v@ =~= l_changes_close());
    }
    v
}

/// `{}`
pub open spec fn l_empty_obj() -> Seq<u8> {
    seq![123u8, 125]
}

pub fn l_empty_obj_vec() -> (v: Vec<u8>)
    ensures
        v@ == l_empty_obj(),
{
    let mut v: Vec<u8> = Vec::new();
    v.push(123);
    v.push(125);
    proof {
        assert(v@ =~= l_empty_obj());
    }
    v
}

/// `initialize`
pub open spec fn m_initialize() -> Seq<u8> {
    seq![105u8, 110, 105, 116, 105, 97, 108, 105, 122, 101]
}

pub fn m_initialize_vec() -> (v: Vec<u8>)
    ensures
        v@ == m_initialize(),
{
    let mut v: Vec<u8> = Vec::new();
    v.push(105);
    v.push(110);
    v.push(105);
    v.push(116);
    v.push(105);
    v.push(97);
    v.push(108);
    v.push(105);
    v.push(122);
    v.push(101);
    proof {
        assert(v@ =~= m_initialize());
    }
    v
}

/// `initialized`
pub open spec fn m_initialized() -> Seq<u8> {
    seq![105u8, 110, 105, 116, 105, 97, 108, 105, 122, 101, 100]
}

pub fn m_initialized_vec() -> (v: Vec<u8>)
    ensures
        v@ == m_initialized(),
{
    let mut v: Vec<u8> = Vec::new();
    v.push(105);
    v.push(110);
    v.push(105);
    v.push(116);
    v.push(105);
    v.push(97);
    v.push(108);
    v.push(105);
    v.push(122);
    v.push(101);
    v.push(100);
    proof {
        assert(v@ =~= m_initialized());
    }
    v
}

/// `workspace/didChangeConfiguration`
pub open spec fn m_did_change_configuration() -> Seq<u8> {
    seq![119u8, 111, 114, 107, 115, 112, 97, 99, 101, 47, 100, 105, 100, 67, 104, 97, 110, 103, 101, 67, 111, 110, 102, 105, 103, 117, 114, 97, 116, 105, 111, 110]
}

pub fn m_did_change_configuration_vec() -> (v: Vec<u8>)
    ensures
        v@ == m_did_change_configuration(),
{
    let mut v: Vec<u8> = Vec::new();
    v.push(119);
    v.push(111);
    v.push(114);
    v.push(107);
    v.push(115);
    v.push(112);
    v.push(97);
    v.push(99);
    v.push(101);
    v.push(47);
    v.push(100);
    v.push(105);
    v.push(100);
    v.push(67);
    v.push(104);
    v.push(97);
    v.push(110);
    v.push(103);
    v.push(101);
    v.push(67);
    v.push(111);
    v.push(110);
    v.push(102);
    v.push(105);
    v.push(103);
    v.push(117);
    v.push(114);
    v.push(97);
    v.push(116);
    v.push(105);
    v.push(111);
    v.push(110);
    proof {
        assert(v@ =~= m_did_change_configuration());
    }
    v
}

/// `textDocument/completion`
pub open spec fn m_completion() -> Seq<u8> {
    seq![116u8, 101, 120, 116, 68, 111, 99, 117, 109, 101, 110, 116, 47, 99, 111, 109, 112, 108, 101, 116, 105, 111, 110]
}

pub fn m_completion_vec() -> (v: Vec<u8>)
    ensures
        v@ == m_completion(),
{
    let mut v: Vec<u8> = Vec::new();
    v.push(116);
    v.push(101);
    v.push(120);
    v.push(116);
    v.push(68);
    v.push(111);
    v.push(99);
    v.push(117);
    v.push(109);
    v.push(101);
    v.push(110);
    v.push(116);
    v.push(47);
    v.push(99);
    v.push(111);
    v.push(109);
    v.push(112);
    v.push(108);
    v.push(101);
    v.push(116);
    v.push(105);
    v.push(111);
    v.push(110);
    proof {
        assert(v@ =~= m_completion());
    }
    v
}

/// `textDocument/hover`
pub open spec fn m_hover() -> Seq<u8> {
    seq![116u8, 101, 120, 116, 68, 111, 99, 117, 109, 101, 110, 116, 47, 104, 111, 118, 101, 114]
}

pub fn m_hover_vec() -> (v: Vec<u8>)
    ensures
        v@ == m_hover(),
{
    let mut v: Vec<u8> = Vec::new();
    v.push(116);
    v.push(101);
    v.push(120);
    v.push(116);
    v.push(68);
    v.push(111);
    v.push(99);
    v.push(117);
    v.push(109);
    v.push(101);
    v.push(110);
    v.push(116);
    v.push(47);
    v.push(104);
    v.push(111);
    v.push(118);
    v.push(101);
    v.push(114);
    proof {
        assert(v@ =~= m_hover());
    }
    v
}

/// `textDocument/definition`
pub open spec fn m_definition() -> Seq<u8> {
    seq![116u8, 101, 120, 116, 68, 111, 99, 117, 109, 101, 110, 116, 47, 100, 101, 102, 105, 110, 105, 116, 105, 111, 110]
}

pub fn m_definition_vec() -> (v: Vec<u8>)
    ensures
        v@ == m_definition(),
{
    let mut v: Vec<u8> = Vec::new();
    v.push(116);
    v.push(101);
    v.push(120);
    v.push(116);
    v.push(68);
    v.push(111);
    v.push(99);
    v.push(117);
    v.push(109);
    v.push(101);
    v.push(110);
    v.push(116);
    v.push(47);
    v.push(100);
    v.push(101);
    v.push(102);
    v.push(105);
    v.push(110);
    v.push(105);
    v.push(116);
    v.push(105);
    v.push(111);
    v.push(110);
    proof {
        assert(v@ =~= m_definition());
    }
    v
}

/// `textDocument/didOpen`
pub open spec fn m_did_open() -> Seq<u8> {
    seq![116u8, 101, 120, 116, 68, 111, 99, 117, 109, 101, 110, 116, 47, 100, 105, 100, 79, 112, 101, 110]
}

pub fn m_did_open_vec() -> (v: Vec<u8>)
    ensures
        v@ == m_did_open(),
{
    let mut v: Vec<u8> = Vec::new();
    v.push(116);
    v.push(101);
    v.push(120);
    v.push(116);
    v.push(68);
    v.push(111);
    v.push(99);
    v.push(117);
    v.push(109);
    v.push(101);
    v.push(110);
    v.push(116);
    v.push(47);
    v.push(100);
    v.push(105);
    v.push(100);
    v.push(79);
    v.push(112);
    v.push(101);
    v.push(110);
    proof {
        assert(v@ =~= m_did_open());
    }
    v
}

/// `textDocument/didChange`
pub open spec fn m_did_change() -> Seq<u8> {
    seq![116u8, 101, 120, 116, 68, 111, 99, 117, 109, 101, 110, 116, 47, 100, 105, 100, 67, 104, 97, 110, 103, 101]
}

pub fn m_did_change_vec() -> (v: Vec<u8>)
    ensures
        v@ == m_did_change(),
{
    let mut v: Vec<u8> = Vec::new();
    v.push(116);
    v.push(101);
    v.push(120);
    v.push(116);
    v.push(68);
    v.push(111);
    v.push(99);
    v.push(117);
    v.push(109);
    v.push(101);
    v.push(110);
    v.push(116);
    v.push(47);
    v.push(100);
    v.push(105);
    v.push(100);
    v.push(67);
    v.push(104);
    v.push(97);
    v.push(110);
    v.push(103);
    v.push(101);
    proof {
        assert(v@ =~= m_did_change());
    }
    v
}

/// The parameters of the `initialize` request: the editor's process
/// identifier, the workspace root, and the fixed capability set.
pub open spec fn initialize_params(pid: nat, root_uri: Seq<u8>) -> Seq<u8> {
    l_pid() + dec_seq(pid) + l_root_uri() + quoted(root_uri) + l_caps()
}

/// Builds the `initialize` parameters.
pub fn initialize_params_ex(pid: u64, root_uri: &[u8]) -> (r: Vec<u8>)
    ensures
        r@ == initialize_params(pid as nat, root_uri@),
{
    let mut out = l_pid_vec();
    let pid_b = crate::bytes::u64_to_dec(pid);
    push_bytes(&mut out, pid_b.as_slice());
    push_bytes(&mut out, l_root_uri_vec().as_slice());
    out.push(34);
    crate::json::append_escaped(&mut out, root_uri);
    out.push(34);
    push_bytes(&mut out, l_caps_vec().as_slice());
    proof {
        assert(out@ =~= initialize_params(pid as nat, root_uri@));
    }
    out
}

/// The configuration settings sent after the handshake: fuzzy
/// case-insensitive completion matching, no build on save.
pub fn settings_params_ex() -> (r: Vec<u8>)
    ensures
        r@ == l_settings(),
{
    l_settings_vec()
}

/// An empty parameter object.
pub fn empty_params_ex() -> (r: Vec<u8>)
    ensures
        r@ == l_empty_obj(),
{
    l_empty_obj_vec()
}

/// The parameters of a positional request: a document and a
/// zero-based position in it.
pub open spec fn position_params(uri: Seq<u8>, line: nat, character: nat) -> Seq<u8> {
    l_td_uri() + quoted(uri) + l_pos() + dec_seq(line) + l_char() + dec_seq(character)
        + l_two_close()
}

/// Builds positional parameters for completion, hover and definition.
pub fn position_params_ex(uri: &[u8], line: u32, character: u32) -> (r: Vec<u8>)
    ensures
        r@ == position_params(uri@, line as nat, character as nat),
{
    let mut out = l_td_uri_vec();
    out.push(34);
    crate::json::append_escaped(&mut out, uri);
    out.push(34);
    push_bytes(&mut out, l_pos_vec().as_slice());
    let line_b = crate::bytes::u64_to_dec(line as u64);
    push_bytes(&mut out, line_b.as_slice());
    push_bytes(&mut out, l_char_vec().as_slice());
    let char_b = crate::bytes::u64_to_dec(character as u64);
    push_bytes(&mut out, char_b.as_slice());
    push_bytes(&mut out, l_two_close_vec().as_slice());
    proof {
        assert(out@ =~= position_params(uri@, line as nat, character as nat));
    }
    out
}

/// The parameters announcing a newly opened document: its uri,
/// language, version and full text.
pub open spec fn did_open_params(uri: Seq<u8>, language_id: Seq<u8>, version: int, text: Seq<u8>) -> Seq<u8> {
    l_td_uri() + quoted(uri) + l_lang() + quoted(language_id) + l_version() + int_dec_seq(version)
        + l_text() + quoted(text) + l_two_close()
}

/// Builds the parameters of the document-open notification.
pub fn did_open_params_ex(uri: &[u8], language_id: &[u8], version: i32, text: &[u8]) -> (r: Vec<
    u8,
>)
    ensures
        r@ == did_open_params(uri@, language_id@, version as int, text@),
{
    let mut out = l_td_uri_vec();
    out.push(34);
    crate::json::append_escaped(&mut out, uri);
    out.push(34);
    push_bytes(&mut out, l_lang_vec().as_slice());
    out.push(34);
    crate::json::append_escaped(&mut out, language_id);
    out.push(34);
    push_bytes(&mut out, l_version_vec().as_slice());
    let ver_b = crate::bytes::i64_to_dec(version as i64);
    push_bytes(&mut out, ver_b.as_slice());
    push_bytes(&mut out, l_text_vec().as_slice());
    out.push(34);
    crate::json::append_escaped(&mut out, text);
    out.push(34);
    push_bytes(&mut out, l_two_close_vec().as_slice());
    proof {
        assert(out@ =~= did_open_params(uri@, language_id@, version as int, text@));
    }
    out
}

/// The parameters announcing a document change: the document's uri
/// and new version, and its full replacement text.
pub open spec fn did_change_params(uri: Seq<u8>, version: int, text: Seq<u8>) -> Seq<u8> {
    l_td_uri() + quoted(uri) + l_version() + int_dec_seq(version) + l_changes() + quoted(text)
        + l_changes_close()
}

/// Builds the parameters of the document-change notification.
pub fn did_change_params_ex(uri: &[u8], version: i32, text: &[u8]) -> (r: Vec<u8>)
    ensures
        r@ == did_change_params(uri@, version as int, text@),
{
    let mut out = l_td_uri_vec();
    out.push(34);
    crate::json::append_escaped(&mut out, uri);
    out.push(34);
    push_bytes(&mut out, l_version_vec().as_slice());
    let ver_b = crate::bytes::i64_to_dec(version as i64);
    push_bytes(&mut out, ver_b.as_slice());
    push_bytes(&mut out, l_changes_vec().as_slice());
    out.push(34);
    crate::json::append_escaped(&mut out, text);
    out.push(34);
    push_bytes(&mut out, l_changes_close_vec().as_slice());
    proof {
        assert(out@ =~= did_change_params(uri@, version as int, text@));
    }
    out
}

} // verus!
