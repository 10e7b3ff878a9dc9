use starlark_typing::dynamic::DeferredHolderKey;
use starlark_typing::dynamic::DynamicLambdaIndex;
use starlark_typing::dynamic::DynamicLambdaResultsKey;

#[test]
fn dynamic_lambda_key_composes() {
    let holder = DeferredHolderKey::new("cell//pkg:rule".to_owned());
    let idx = DynamicLambdaIndex::new(3);
    let key = DynamicLambdaResultsKey::new(holder, idx);
    assert_eq!(key.holder_key().id, "cell//pkg:rule");
    assert_eq!(key.1, DynamicLambdaIndex::new(3));
}
