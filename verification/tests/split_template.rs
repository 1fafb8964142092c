//! The split renderer across its three phases, against the real template
//! engine: plain interpolation, and a delayed block that accumulates during
//! item renders and flushes in the footer segment.

use handlebars::Renderable;
use sqlpage::json::JsonVal;
use sqlpage::split_renderer::SplitTemplateRenderer;
use sqlpage::templates::TemplateStore;

const DELAYED_KEY: &str = "_delayed_contents";

/// A block helper that renders its body but withholds the text, prepending
/// it to an accumulator carried in the render context, to be emitted later
/// by `flush_delayed`.
struct DelayHelper;

impl handlebars::HelperDef for DelayHelper {
    fn call<'reg: 'rc, 'rc>(
        &self,
        h: &handlebars::Helper<'reg, 'rc>,
        r: &'reg handlebars::Handlebars<'reg>,
        ctx: &'rc handlebars::Context,
        rc: &mut handlebars::RenderContext<'reg, 'rc>,
        _out: &mut dyn handlebars::Output,
    ) -> handlebars::HelperResult {
        let tpl = h
            .template()
            .ok_or_else(|| handlebars::RenderError::new("delay is a block helper"))?;
        let mut so = handlebars::StringOutput::new();
        tpl.render(r, ctx, rc, &mut so)?;
        let rendered = so
            .into_string()
            .map_err(|e| handlebars::RenderError::new(e.to_string()))?;
        let mut data = rc
            .context()
            .map(|c| c.data().clone())
            .unwrap_or_else(|| ctx.data().clone());
        let old = data
            .get(DELAYED_KEY)
            .and_then(serde_json::Value::as_str)
            .unwrap_or_default()
            .to_string();
        let combined = rendered + &old;
        if let serde_json::Value::Object(m) = &mut data {
            m.insert(DELAYED_KEY.to_string(), serde_json::Value::String(combined));
        } else {
            let mut m = serde_json::Map::new();
            m.insert(DELAYED_KEY.to_string(), serde_json::Value::String(combined));
            data = serde_json::Value::Object(m);
        }
        rc.set_context(handlebars::Context::wraps(data)?);
        Ok(())
    }
}

/// Emits whatever `delay` has accumulated, and clears it.
struct FlushDelayedHelper;

impl handlebars::HelperDef for FlushDelayedHelper {
    fn call<'reg: 'rc, 'rc>(
        &self,
        _h: &handlebars::Helper<'reg, 'rc>,
        _r: &'reg handlebars::Handlebars<'reg>,
        _ctx: &'rc handlebars::Context,
        rc: &mut handlebars::RenderContext<'reg, 'rc>,
        out: &mut dyn handlebars::Output,
    ) -> handlebars::HelperResult {
        if let Some(c) = rc.context() {
            let mut data = c.data().clone();
            let delayed = data
                .get(DELAYED_KEY)
                .and_then(serde_json::Value::as_str)
                .map(str::to_string);
            if let Some(s) = delayed {
                out.write(&s)?;
            }
            if let serde_json::Value::Object(m) = &mut data {
                m.remove(DELAYED_KEY);
            }
            rc.set_context(handlebars::Context::wraps(data)?);
        }
        Ok(())
    }
}

fn engine_with_helpers() -> handlebars::Handlebars<'static> {
    let mut reg = handlebars::Handlebars::new();
    reg.register_helper("delay", Box::new(DelayHelper));
    reg.register_helper("flush_delayed", Box::new(FlushDelayedHelper));
    reg
}

fn renderer_for(
    store: &TemplateStore,
    name: &str,
) -> SplitTemplateRenderer {
    SplitTemplateRenderer::new(store.resolve(name).expect("registered").clone())
}

fn obj(fields: Vec<(&str, JsonVal)>) -> JsonVal {
    JsonVal::Obj(
        fields
            .into_iter()
            .map(|(k, v)| (k.to_string(), v))
            .collect(),
    )
}

#[test]
fn test_split_template_render() {
    let mut store = TemplateStore::new(engine_with_helpers());
    store
        .add_template(
            "t".to_string(),
            "Hello {{name}} !",
            " ({{x}} : {{../name}}) ",
            "Goodbye {{name}}",
        )
        .unwrap();
    let mut rdr = renderer_for(&store, "t");
    let mut output = String::new();
    rdr.render_start(&mut output, &obj(vec![("name", JsonVal::Str("SQL".to_string()))]))
        .unwrap();
    rdr.render_item(&mut output, &obj(vec![("x", JsonVal::I64(1))])).unwrap();
    rdr.render_item(&mut output, &obj(vec![("x", JsonVal::I64(2))])).unwrap();
    rdr.render_end(&mut output).unwrap();
    assert_eq!(output, "Hello SQL ! (1 : SQL)  (2 : SQL) Goodbye SQL");
}

#[test]
fn test_delayed() {
    let mut store = TemplateStore::new(engine_with_helpers());
    store
        .add_template(
            "t".to_string(),
            "",
            "<b> {{x}} {{#delay}} {{x}} </b>{{/delay}}",
            "{{flush_delayed}}",
        )
        .unwrap();
    let mut rdr = renderer_for(&store, "t");
    let mut output = String::new();
    rdr.render_start(&mut output, &JsonVal::Null).unwrap();
    rdr.render_item(&mut output, &obj(vec![("x", JsonVal::I64(1))])).unwrap();
    rdr.render_item(&mut output, &obj(vec![("x", JsonVal::I64(2))])).unwrap();
    rdr.render_end(&mut output).unwrap();
    assert_eq!(output, "<b> 1 <b> 2  2 </b> 1 </b>");
}

#[test]
fn row_index_counts_up_from_zero() {
    let mut store = TemplateStore::new(engine_with_helpers());
    store
        .add_template("t".to_string(), "[", "({{@row_index}})", "]")
        .unwrap();
    let mut rdr = renderer_for(&store, "t");
    let mut output = String::new();
    rdr.render_start(&mut output, &JsonVal::Null).unwrap();
    for _ in 0..3 {
        rdr.render_item(&mut output, &JsonVal::Null).unwrap();
    }
    rdr.render_end(&mut output).unwrap();
    assert_eq!(output, "[(0)(1)(2)]");
}

#[test]
fn item_before_start_and_after_end_emits_nothing() {
    let mut store = TemplateStore::new(engine_with_helpers());
    store.add_template("t".to_string(), "A", "x", "Z").unwrap();
    let mut rdr = renderer_for(&store, "t");
    let mut output = String::new();
    rdr.render_item(&mut output, &JsonVal::Null).unwrap();
    assert_eq!(output, "");
    rdr.render_start(&mut output, &JsonVal::Null).unwrap();
    rdr.render_item(&mut output, &JsonVal::Null).unwrap();
    rdr.render_end(&mut output).unwrap();
    rdr.render_item(&mut output, &JsonVal::Null).unwrap();
    assert_eq!(output, "AxZ");
}

#[test]
fn second_end_emits_nothing_more() {
    let mut store = TemplateStore::new(engine_with_helpers());
    store.add_template("t".to_string(), "A", "x", "Z").unwrap();
    let mut rdr = renderer_for(&store, "t");
    let mut once = String::new();
    rdr.render_start(&mut once, &JsonVal::Null).unwrap();
    rdr.render_end(&mut once).unwrap();
    let reference = once.clone();
    rdr.render_end(&mut once).unwrap();
    assert_eq!(once, reference);
}

#[test]
fn store_rejects_duplicate_names_and_resolves_by_name() {
    let mut store = TemplateStore::new(engine_with_helpers());
    store.add_template("a".to_string(), "1", "2", "3").unwrap();
    assert!(store.add_template("a".to_string(), "x", "y", "z").is_err());
    assert!(store.resolve("a").is_some());
    assert!(store.resolve("b").is_none());
    assert_eq!(store.resolve("a").unwrap().name().as_str(), "a");
}

#[test]
fn store_rejects_malformed_segment() {
    let mut store = TemplateStore::new(engine_with_helpers());
    assert!(store.add_template("bad".to_string(), "{{#if}", "", "").is_err());
}
