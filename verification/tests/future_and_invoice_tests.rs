use operations_toolkit::future_price::{
    extended_data_row, extended_header_row, future_value_of, result_file_name, shared_supplier_list,
    supplier_of_header,
};
use operations_toolkit::invoice::{map_to_master, master_columns, merged_row, InvoiceCell};

fn v(xs: &[&str]) -> Vec<String> {
    xs.iter().map(|x| x.to_string()).collect()
}

fn restock_headers() -> Vec<String> {
    v(&["ASIN", "Price", "Maliyet", "ACME price", "Other price"])
}

fn future_headers() -> Vec<String> {
    v(&["ASIN", "Price", "acme price", "Maliyet"])
}

#[test]
fn supplier_headers() {
    assert_eq!(supplier_of_header("ACME Price"), Some("ACME".to_string()));
    assert_eq!(supplier_of_header(" Big Co  price"), Some("Big Co".to_string()));
    assert_eq!(supplier_of_header("Future Price"), None);
    assert_eq!(supplier_of_header("Price"), None);
    assert_eq!(shared_supplier_list(&restock_headers(), &future_headers()), v(&["ACME"]));
}

#[test]
fn extended_headers_follow_their_columns() {
    assert_eq!(
        extended_header_row(&restock_headers(), &future_headers()),
        v(&["ASIN", "Price", "Future Price", "Maliyet", "Future Maliyet", "ACME price", "ACME future price", "Other price"])
    );
    let upper_future = v(&["ASIN", "Price", "acme Price"]);
    assert_eq!(
        extended_header_row(&restock_headers(), &upper_future),
        v(&["ASIN", "Price", "Future Price", "Maliyet", "ACME price", "Other price"])
    );
}

#[test]
fn extended_rows_take_future_values() {
    let f_rows = vec![v(&["B01", "11", "6", "3"]), v(&["B02", "1", "1", "1"]), v(&["B01", "12", "7", "4"])];
    let row = v(&["B01", "10", "5", "9", "8"]);
    assert_eq!(
        extended_data_row(&restock_headers(), &future_headers(), &f_rows, 0, &row, 0),
        v(&["B01", "10", "12", "5", "4", "9", "7", "8"])
    );
    let headers = extended_header_row(&restock_headers(), &future_headers());
    let out = extended_data_row(&restock_headers(), &future_headers(), &f_rows, 0, &row, 0);
    assert_eq!(out.len(), headers.len());
    let unknown = v(&["B09", "10", "5", "9", "8"]);
    assert_eq!(
        extended_data_row(&restock_headers(), &future_headers(), &f_rows, 0, &unknown, 0),
        v(&["B09", "10", "#YOK", "5", "#YOK", "9", "#YOK", "8"])
    );
    assert_eq!(future_value_of(&future_headers(), &f_rows, 0, "B02", "Price"), Some("1".to_string()));
    assert_eq!(future_value_of(&future_headers(), &f_rows, 0, "B03", "Price"), None);
}

#[test]
fn invoice_master_columns_and_mapping() {
    let (master, positions) = master_columns(&v(&["Upc", " Status ", "ShipQuantity", "InvoiceDate"]), &v(&["Status"]));
    assert_eq!(master, v(&["Upc", "ShipQuantity", "InvoiceDate"]));
    assert_eq!(positions, vec![0, 2, 3]);
    assert_eq!(map_to_master(&v(&["InvoiceDate", " Upc", "ShipQuantity"]), &master), Ok(vec![1, 2, 0]));
    assert_eq!(map_to_master(&v(&["Upc", "InvoiceDate"]), &master), Err(1));
}

#[test]
fn invoice_rows_are_merged() {
    let record = v(&["0001", "5", "2024-01-05"]);
    let cells = merged_row(&record, &vec![0, 1, 2], 2, 1);
    assert_eq!(cells.len(), 3);
    assert!(matches!(&cells[0], InvoiceCell::Text(t) if t == "0001"));
    assert!(matches!(&cells[1], InvoiceCell::ShipQuantity));
    assert!(matches!(&cells[2], InvoiceCell::Text(t) if t == "01/05/2024"));
}

#[test]
fn result_file_names() {
    assert_eq!(result_file_name("  "), "Future_Price_Sonuc.xlsx");
    assert_eq!(result_file_name(" May "), " May .xlsx");
}
