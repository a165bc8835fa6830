//! Calls of built-in functions by their tag.
use crate::builtins::{
    array, boolean, console, date, error, function, generator, global, json, maps, math, number, object,
    promise, string,
};
use crate::builtins::global::tested_number;
use crate::interpreter::Interpreter;
use crate::value::{JsError, JsValue, NativeId};
use vstd::prelude::*;

verus! {

/// What the built-in `id` gives for `args`, for those whose result this states: `isNaN`
/// and `isFinite` test the number their argument converts to (where that is known
/// without running program code); `Number.isNaN` is true of a NaN number only, without
/// converting.
pub open spec fn native_result(id: NativeId, args: Seq<JsValue>, r: Result<JsValue, JsError>) -> bool {
    match id {
        NativeId::GlobalIsNaN => tested_number(args) matches Some(n) ==> r == Ok::<JsValue, JsError>(
            JsValue::Boolean(n is NaN),
        ),
        NativeId::GlobalIsFinite => tested_number(args) matches Some(n) ==> r == Ok::<JsValue, JsError>(
            JsValue::Boolean(n is Finite),
        ),
        NativeId::NumberIsNaN => r == Ok::<JsValue, JsError>(
            JsValue::Boolean(args.len() > 0 && (args[0] matches JsValue::Number(n) && n is NaN)),
        ),
        _ => true,
    }
}

/// Calls the built-in `id` with `this` and `args`.
pub fn call_native(interp: &mut Interpreter, id: NativeId, this: JsValue, args: Vec<JsValue>) -> (r:
    Result<JsValue, JsError>)
    ensures
        final(interp).spends(old(interp), r is Err),
        old(interp).fuel > 0 ==> native_result(id, args@, r),
    decreases old(interp).fuel,
{
    interp.step()?;
    match id {
        NativeId::ArrayCtor => array::array_constructor_fn(interp, this, args),
        NativeId::ArrayIsArray => array::array_is_array(interp, this, args),
        NativeId::ArrayPush => array::array_push(interp, this, args),
        NativeId::ArrayPop => array::array_pop(interp, this, args),
        NativeId::ArrayShift => array::array_shift(interp, this, args),
        NativeId::ArrayUnshift => array::array_unshift(interp, this, args),
        NativeId::ArrayReverse => array::array_reverse(interp, this, args),
        NativeId::ArrayFill => array::array_fill(interp, this, args),
        NativeId::ArrayCopyWithin => array::array_copy_within(interp, this, args),
        NativeId::ArraySplice => array::array_splice(interp, this, args),
        NativeId::ArrayOf => array::array_of(interp, this, args),
        NativeId::ArrayAt => array::array_at(interp, this, args),
        NativeId::ArrayIndexOf => array::array_index_of(interp, this, args),
        NativeId::ArrayIncludes => array::array_includes(interp, this, args),
        NativeId::ArrayLastIndexOf => array::array_last_index_of(interp, this, args),
        NativeId::ArraySlice => array::array_slice(interp, this, args),
        NativeId::ArrayConcat => array::array_concat(interp, this, args),
        NativeId::ArrayToReversed => array::array_to_reversed(interp, this, args),
        NativeId::ArrayToSpliced => array::array_to_spliced(interp, this, args),
        NativeId::ArrayWith => array::array_with(interp, this, args),
        NativeId::ArrayKeys => array::array_keys(interp, this, args),
        NativeId::ArrayMap => array::array_map(interp, this, args),
        NativeId::ArrayFilter => array::array_filter(interp, this, args),
        NativeId::ArrayForEach => array::array_foreach(interp, this, args),
        NativeId::ArrayFind => array::array_find(interp, this, args),
        NativeId::ArrayFindIndex => array::array_find_index(interp, this, args),
        NativeId::ArrayFindLast => array::array_find_last(interp, this, args),
        NativeId::ArrayFindLastIndex => array::array_find_last_index(interp, this, args),
        NativeId::ArraySome => array::array_some(interp, this, args),
        NativeId::ArrayEvery => array::array_every(interp, this, args),
        NativeId::ArrayJoin => array::array_join(interp, this, args),
        NativeId::ArrayToString => array::array_to_string(interp, this, args),
        NativeId::ArraySort => array::array_sort(interp, this, args),
        NativeId::ArrayToSorted => array::array_to_sorted(interp, this, args),
        NativeId::ArrayFlat => array::array_flat(interp, this, args),
        NativeId::ArrayFlatMap => array::array_flat_map(interp, this, args),
        NativeId::ArrayFrom => array::array_from(interp, this, args),
        NativeId::ArrayEntries => array::array_entries(interp, this, args),
        NativeId::ArrayValues => array::array_values(interp, this, args),
        NativeId::ArrayIteratorNext => array::array_iterator_next(interp, this, args),
        NativeId::GeneratorNext => generator::generator_next(interp, this, args),
        NativeId::GeneratorReturn => generator::generator_return(interp, this, args),
        NativeId::GeneratorThrow => generator::generator_throw(interp, this, args),
        NativeId::GeneratorIterator => generator::generator_iterator(interp, this, args),
        NativeId::ConsoleLog => console::console_log(interp, this, args),
        NativeId::ConsoleError => console::console_error(interp, this, args),
        NativeId::ConsoleWarn => console::console_warn(interp, this, args),
        NativeId::ConsoleInfo => console::console_info(interp, this, args),
        NativeId::ConsoleDebug => console::console_debug(interp, this, args),
        NativeId::ConsoleDir => console::console_dir(interp, this, args),
        NativeId::ConsoleTable => console::console_table(interp, this, args),
        NativeId::ConsoleTime => console::console_time(interp, this, args),
        NativeId::ConsoleTimeEnd => console::console_time_end(interp, this, args),
        NativeId::ConsoleCount => console::console_count(interp, this, args),
        NativeId::ConsoleCountReset => console::console_count_reset(interp, this, args),
        NativeId::ConsoleClear => console::console_clear(interp, this, args),
        NativeId::ConsoleGroup => console::console_group(interp, this, args),
        NativeId::ConsoleGroupEnd => console::console_group_end(interp, this, args),
        NativeId::StringCharAt => string::string_char_at(interp, this, args),
        NativeId::StringCharCodeAt => string::string_char_code_at(interp, this, args),
        NativeId::StringIndexOf => string::string_index_of(interp, this, args),
        NativeId::StringLastIndexOf => string::string_last_index_of(interp, this, args),
        NativeId::StringAt => string::string_at(interp, this, args),
        NativeId::StringIncludes => string::string_includes(interp, this, args),
        NativeId::StringStartsWith => string::string_starts_with(interp, this, args),
        NativeId::StringEndsWith => string::string_ends_with(interp, this, args),
        NativeId::StringSlice => string::string_slice(interp, this, args),
        NativeId::StringSubstring => string::string_substring(interp, this, args),
        NativeId::StringToLowerCase => string::string_to_lower_case(interp, this, args),
        NativeId::StringToUpperCase => string::string_to_upper_case(interp, this, args),
        NativeId::StringTrim => string::string_trim(interp, this, args),
        NativeId::StringTrimStart => string::string_trim_start(interp, this, args),
        NativeId::StringTrimEnd => string::string_trim_end(interp, this, args),
        NativeId::StringSplit => string::string_split(interp, this, args),
        NativeId::StringRepeat => string::string_repeat(interp, this, args),
        NativeId::StringReplace => string::string_replace(interp, this, args),
        NativeId::StringReplaceAll => string::string_replace_all(interp, this, args),
        NativeId::StringPadStart => string::string_pad_start(interp, this, args),
        NativeId::StringPadEnd => string::string_pad_end(interp, this, args),
        NativeId::StringConcat => string::string_concat(interp, this, args),
        NativeId::StringFromCharCode => string::string_from_char_code(interp, this, args),
        NativeId::StringCtor => string::string_constructor(interp, this, args),
        NativeId::StringToString => string::string_to_string(interp, this, args),
        NativeId::MathAbs => math::math_abs(interp, this, args),
        NativeId::MathFloor => math::math_floor(interp, this, args),
        NativeId::MathCeil => math::math_ceil(interp, this, args),
        NativeId::MathRound => math::math_round(interp, this, args),
        NativeId::MathTrunc => math::math_trunc(interp, this, args),
        NativeId::MathSign => math::math_sign(interp, this, args),
        NativeId::MathMin => math::math_min(interp, this, args),
        NativeId::MathMax => math::math_max(interp, this, args),
        NativeId::MathPow => math::math_pow(interp, this, args),
        NativeId::MathSqrt => math::math_sqrt(interp, this, args),
        NativeId::MathLog10 => math::math_log10(interp, this, args),
        NativeId::MathLog2 => math::math_log2(interp, this, args),
        NativeId::MathCbrt => math::math_cbrt(interp, this, args),
        NativeId::MathHypot => math::math_hypot(interp, this, args),
        NativeId::MathRandom => math::math_random(interp, this, args),
        NativeId::BooleanCtor => boolean::boolean_constructor_fn(interp, this, args),
        NativeId::BooleanToString => boolean::boolean_to_string(interp, this, args),
        NativeId::BooleanValueOf => boolean::boolean_value_of(interp, this, args),
        NativeId::NumberCtor => number::number_constructor_fn(interp, this, args),
        NativeId::NumberIsNaN => number::number_is_nan(interp, this, args),
        NativeId::NumberIsFinite => number::number_is_finite(interp, this, args),
        NativeId::NumberIsInteger => number::number_is_integer(interp, this, args),
        NativeId::NumberIsSafeInteger => number::number_is_safe_integer(interp, this, args),
        NativeId::NumberParseFloat => number::number_parse_float(interp, this, args),
        NativeId::NumberParseInt => number::number_parse_int(interp, this, args),
        NativeId::NumberToFixed => number::number_to_fixed(interp, this, args),
        NativeId::NumberToString => number::number_to_string(interp, this, args),
        NativeId::NumberToPrecision => number::number_to_precision(interp, this, args),
        NativeId::NumberToExponential => number::number_to_exponential(interp, this, args),
        NativeId::GlobalParseInt => global::global_parse_int(interp, this, args),
        NativeId::GlobalParseFloat => global::global_parse_float(interp, this, args),
        NativeId::GlobalIsNaN => global::global_is_nan(interp, this, args),
        NativeId::GlobalIsFinite => global::global_is_finite(interp, this, args),
        NativeId::GlobalEncodeUri => global::global_encode_uri(interp, this, args),
        NativeId::GlobalEncodeUriComponent => global::global_encode_uri_component(interp, this, args),
        NativeId::GlobalDecodeUri => global::global_decode_uri(interp, this, args),
        NativeId::GlobalDecodeUriComponent => global::global_decode_uri_component(interp, this, args),
        NativeId::GlobalBtoa => global::global_btoa(interp, this, args),
        NativeId::GlobalAtob => global::global_atob(interp, this, args),
        NativeId::GlobalStructuredClone => global::global_structured_clone(interp, this, args),
        NativeId::GlobalEval => global::global_eval(interp, this, args),
        NativeId::ObjectCtor => object::object_constructor(interp, this, args),
        NativeId::ObjectKeys => object::object_keys(interp, this, args),
        NativeId::ObjectValues => object::object_values(interp, this, args),
        NativeId::ObjectEntries => object::object_entries(interp, this, args),
        NativeId::ObjectAssign => object::object_assign(interp, this, args),
        NativeId::ObjectFromEntries => object::object_from_entries(interp, this, args),
        NativeId::ObjectHasOwn => object::object_has_own(interp, this, args),
        NativeId::ObjectHasOwnProperty => object::object_has_own_property(interp, this, args),
        NativeId::ObjectCreate => object::object_create(interp, this, args),
        NativeId::ObjectDefineProperty => object::object_define_property(interp, this, args),
        NativeId::ObjectDefineProperties => object::object_define_properties(interp, this, args),
        NativeId::ObjectFreeze => object::object_freeze(interp, this, args),
        NativeId::ObjectSeal => object::object_seal(interp, this, args),
        NativeId::ObjectPreventExtensions => object::object_prevent_extensions(interp, this, args),
        NativeId::ObjectIsFrozen => object::object_is_frozen(interp, this, args),
        NativeId::ObjectIsSealed => object::object_is_sealed(interp, this, args),
        NativeId::ObjectIsExtensible => object::object_is_extensible(interp, this, args),
        NativeId::ObjectIsPrototypeOf => object::object_is_prototype_of(interp, this, args),
        NativeId::ObjectToString => object::object_to_string(interp, this, args),
        NativeId::ObjectToLocaleString => object::object_to_locale_string(interp, this, args),
        NativeId::ObjectValueOf => object::object_value_of(interp, this, args),
        NativeId::ObjectGetOwnPropertyDescriptor => object::object_get_own_property_descriptor(interp, this, args),
        NativeId::ObjectGetOwnPropertyDescriptors => object::object_get_own_property_descriptors(interp, this, args),
        NativeId::ObjectGetOwnPropertyNames => object::object_get_own_property_names(interp, this, args),
        NativeId::ObjectGetOwnPropertySymbols => object::object_get_own_property_symbols(interp, this, args),
        NativeId::ObjectGetPrototypeOf => object::object_get_prototype_of(interp, this, args),
        NativeId::ObjectSetPrototypeOf => object::object_set_prototype_of(interp, this, args),
        NativeId::ObjectIs => object::object_is(interp, this, args),
        NativeId::FunctionCall => function::function_call(interp, this, args),
        NativeId::FunctionApply => function::function_apply(interp, this, args),
        NativeId::FunctionBind => function::function_bind(interp, this, args),
        NativeId::FunctionCtor => function::function_constructor_fn(interp, this, args),
        NativeId::MapGet => maps::map_get(interp, this, args),
        NativeId::MapHas => maps::map_has(interp, this, args),
        NativeId::MapSet => maps::map_set(interp, this, args),
        NativeId::MapDelete => maps::map_delete(interp, this, args),
        NativeId::MapClear => maps::map_clear(interp, this, args),
        NativeId::MapKeys => maps::map_keys(interp, this, args),
        NativeId::MapValues => maps::map_values(interp, this, args),
        NativeId::MapEntries => maps::map_entries(interp, this, args),
        NativeId::MapForEach => maps::map_foreach(interp, this, args),
        NativeId::MapCtor => maps::map_constructor(interp, this, args),
        NativeId::DateGetTime => date::date_get_time(interp, this, args),
        NativeId::DateGetFullYear => date::date_get_full_year(interp, this, args),
        NativeId::DateGetMonth => date::date_get_month(interp, this, args),
        NativeId::DateGetDate => date::date_get_date(interp, this, args),
        NativeId::DateGetDay => date::date_get_day(interp, this, args),
        NativeId::DateGetHours => date::date_get_hours(interp, this, args),
        NativeId::DateGetMinutes => date::date_get_minutes(interp, this, args),
        NativeId::DateGetSeconds => date::date_get_seconds(interp, this, args),
        NativeId::DateGetMilliseconds => date::date_get_milliseconds(interp, this, args),
        NativeId::DateToIsoString => date::date_to_iso_string(interp, this, args),
        NativeId::DateToString => date::date_to_string(interp, this, args),
        NativeId::DateToDateString => date::date_to_date_string(interp, this, args),
        NativeId::DateToTimeString => date::date_to_time_string(interp, this, args),
        NativeId::DateSetTime => date::date_set_time(interp, this, args),
        NativeId::DateSetFullYear => date::date_set_full_year(interp, this, args),
        NativeId::DateSetMonth => date::date_set_month(interp, this, args),
        NativeId::DateSetDate => date::date_set_date(interp, this, args),
        NativeId::DateSetHours => date::date_set_hours(interp, this, args),
        NativeId::DateSetMinutes => date::date_set_minutes(interp, this, args),
        NativeId::DateSetSeconds => date::date_set_seconds(interp, this, args),
        NativeId::DateSetMilliseconds => date::date_set_milliseconds(interp, this, args),
        NativeId::DateCtor => date::date_constructor(interp, this, args),
        NativeId::DateNow => date::date_now(interp, this, args),
        NativeId::DateUtc => date::date_utc(interp, this, args),
        NativeId::DateParse => date::date_parse(interp, this, args),
        NativeId::ArrayReduce => array::reduce_from(interp, this, args, false),
        NativeId::ArrayReduceRight => array::reduce_from(interp, this, args, true),
        NativeId::ErrorCtor(kind) => error::construct_error(interp, kind, args),
        NativeId::ErrorToString => error::error_to_string(interp, this, args),
        NativeId::PromiseCtor => promise::promise_constructor(interp, this, args),
        NativeId::PromiseThen => promise::promise_then(interp, this, args),
        NativeId::PromiseCatch => promise::promise_catch(interp, this, args),
        NativeId::PromiseResolveFn => promise::promise_resolve_fn(interp, this, args),
        NativeId::PromiseRejectFn => promise::promise_reject_fn(interp, this, args),
        NativeId::PromiseFinally => promise::promise_finally(interp, this, args),
        NativeId::PromiseResolve => promise::promise_resolve_static(interp, this, args),
        NativeId::PromiseReject => promise::promise_reject_static(interp, this, args),
        NativeId::PromiseAll => promise::promise_all(interp, this, args),
        NativeId::PromiseRace => promise::promise_race(interp, this, args),
        NativeId::PromiseAllFulfillFn => promise::promise_all_fulfill_fn(interp, this, args),
        NativeId::PromiseAllRejectFn => promise::promise_all_reject_fn(interp, this, args),
        NativeId::PromiseRaceSettleFn => promise::promise_race_settle_fn(interp, this, args),
        NativeId::PromiseAllSettled => promise::promise_allsettled(interp, this, args),
        NativeId::PromiseAny => promise::promise_any(interp, this, args),
        NativeId::MapGroupBy => maps::map_group_by(interp, this, args),
        NativeId::JsonStringify => json::json_stringify(interp, this, args),
        NativeId::JsonParse => json::json_parse(interp, this, args),
        NativeId::JsonRawJson => json::json_raw_json(interp, this, args),
        NativeId::JsonIsRawJson => json::json_is_raw_json(interp, this, args),
    }
}

} // verus!
