#![allow(unused_imports)]

use vstd::prelude::*;

pub mod arithmetic_laws;
pub mod bignum;
pub mod binary32;
pub mod binary64;
pub mod bytes;
pub mod convert;
pub mod crash_log;
pub mod crash_log_laws;
pub mod decimal;
pub mod event_laws;
pub mod flow_laws;
pub mod flow_value_laws;
pub mod health;
pub mod history_laws;
pub mod ieee;
pub mod name_laws;
pub mod ota_flash;
pub mod pressure_laws;
pub mod recorder_laws;
pub mod root;
pub mod rounding;
pub mod scale_ble;
pub mod scale_weight;
pub mod sensors;
pub mod shot_history;
pub mod shot_precision;
pub mod shot_recorder;
pub mod shot_store;
pub mod shot_store_laws;
pub mod store_layout_laws;
pub mod summary_laws;
pub mod telemetry_feed;
pub mod telemetry_math;
pub mod text;
pub mod text_laws;
pub mod util;
pub mod web_assets;
pub mod weight_laws;
pub mod wifi_provision;
