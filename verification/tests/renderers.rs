use inline_preview::registry::{ContextChoice, ContextRegistry};

#[test]
fn text_without_a_buffer_has_the_shared_renderer() {
    let mut registry = ContextRegistry::new();
    assert_eq!(registry.render_context_for_buffer(None, false), ContextChoice::Shared);
    registry.render_context_for_buffer(Some(1), false);
    assert_eq!(registry.render_context_for_buffer(None, true), ContextChoice::Shared);
}

#[test]
fn a_buffer_keeps_its_renderer_while_it_is_in_use() {
    let mut registry = ContextRegistry::new();
    assert_eq!(registry.render_context_for_buffer(Some(7), false), ContextChoice::Created);
    assert_eq!(registry.render_context_for_buffer(Some(8), false), ContextChoice::Created);
    assert_eq!(registry.render_context_for_buffer(Some(7), true), ContextChoice::Existing);
    assert_eq!(registry.render_context_for_buffer(Some(8), false), ContextChoice::Created);
    assert_eq!(registry.render_context_for_buffer(Some(7), true), ContextChoice::Existing);
}

#[test]
fn a_renderer_that_is_not_in_use_is_replaced() {
    let mut registry = ContextRegistry::new();
    assert_eq!(registry.render_context_for_buffer(Some(7), false), ContextChoice::Created);
    assert_eq!(registry.render_context_for_buffer(Some(7), false), ContextChoice::Created);
    assert_eq!(registry.render_context_for_buffer(Some(7), true), ContextChoice::Existing);
}

#[test]
fn a_buffer_without_a_renderer_is_given_a_new_one() {
    let mut registry = ContextRegistry::new();
    assert_eq!(registry.render_context_for_buffer(Some(7), true), ContextChoice::Created);
}
