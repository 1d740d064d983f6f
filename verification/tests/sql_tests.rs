use std::sync::Arc;

use datafusion::arrow::array::ArrayRef;
use datafusion::arrow::array::Int64Array;
use datafusion::arrow::array::StringArray;
use datafusion::arrow::datatypes::DataType;
use datafusion::arrow::datatypes::Field;
use datafusion::arrow::datatypes::Schema;
use datafusion::arrow::record_batch::RecordBatch;
use datafusion::datasource::MemTable;
use datafusion::execution::context::SessionContext;

use logview::query_engine::make_batches;

#[test]
fn test_execute_sql_over_registered_relation() {
    let lines: Vec<String> = vec![String::from("first line"), String::from("second line")];
    let batches = make_batches(&lines);

    let schema = Arc::new(Schema::new(vec![
        Field::new("line_number", DataType::Int64, false),
        Field::new("line", DataType::Utf8, true),
    ]));
    let mut record_batches = Vec::new();
    for b in &batches {
        record_batches.push(
            RecordBatch::try_new(
                schema.clone(),
                vec![
                    Arc::new(Int64Array::from(b.line_numbers.clone())) as ArrayRef,
                    Arc::new(StringArray::from(b.lines.clone())) as ArrayRef,
                ],
            )
            .unwrap(),
        );
    }
    let table = MemTable::try_new(schema, vec![record_batches]).unwrap();
    let ctx = SessionContext::new();
    ctx.register_table("logs", Arc::new(table)).unwrap();

    let rt = tokio::runtime::Runtime::new().unwrap();
    let results = rt.block_on(async {
        ctx.sql("SELECT line_number, line FROM logs ORDER BY line_number")
            .await
            .unwrap()
            .collect()
            .await
            .unwrap()
    });

    let total_rows: usize = results.iter().map(|b| b.num_rows()).sum();
    assert_eq!(total_rows, 2);
    let result_schema = results[0].schema();
    let columns: Vec<String> = result_schema
        .fields()
        .iter()
        .map(|f| f.name().clone())
        .collect();
    assert_eq!(columns, vec!["line_number", "line"]);
    let nums = results[0]
        .column(0)
        .as_any()
        .downcast_ref::<Int64Array>()
        .unwrap();
    let texts = results[0]
        .column(1)
        .as_any()
        .downcast_ref::<StringArray>()
        .unwrap();
    assert_eq!(nums.value(0), 1);
    assert_eq!(texts.value(0), "first line");
    assert_eq!(nums.value(1), 2);
    assert_eq!(texts.value(1), "second line");
}
